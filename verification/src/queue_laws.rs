//! What the queue store keeps of its table: order, isolation of the mailboxes, limits and totals.

use crate::config::{
    GLOBAL_QUEUE_DISK_CAP_BYTES, MAX_QUEUE_PER_RECIPIENT, PER_MAILBOX_QUEUE_BYTES,
};
use crate::outside::{law_uuid_roundtrip, uuid_text};
use crate::queue_store::{
    acked_rows, ascending, bytes_under, counted_enqueue, enqueue_writes, has_id, in_order,
    is_eviction, is_stale, key_id, keys_of, lowered, put_in_order, queue_bytes, queue_key, queue_of,
    readable, replaced_bytes, row_entry, row_keys, rows_bytes, rows_max_seq, seen_before,
    stale_rows, value_bytes, EntryView, LookupView, RowView, ValueView,
};
use crate::table::{
    applied, in_range, law_key_order, law_owners_are_disjoint, law_range_selects_owner,
    lemma_applied_removals, lemma_total_insert, lemma_total_remove, removals, total_of, without,
    key_before, WriteView,
};
use crate::text::{byte_len, lemma_first_index_is};
use vstd::prelude::*;

verus! {

// ---------------------------------------------------------------------------
// Ordering
// ---------------------------------------------------------------------------

/// Putting an entry in order inserts it somewhere.
proof fn lemma_put_inserts(es: Seq<EntryView>, e: EntryView) -> (p: int)
    ensures
        0 <= p <= es.len(),
        put_in_order(es, e) == es.insert(p, e),
        p < es.len() ==> es[p].value.s > e.value.s,
        p > 0 ==> es[p - 1].value.s <= e.value.s,
    decreases es.len(),
{
    if es.len() > 0 && es.last().value.s > e.value.s {
        let p = lemma_put_inserts(es.drop_last(), e);
        assert(es.insert(p, e) =~= es.drop_last().insert(p, e).push(es.last()));
        p
    } else {
        assert(es.insert(es.len() as int, e) =~= es.push(e));
        es.len() as int
    }
}

/// Sorting keeps the entries and puts their sequence numbers in ascending order.
pub proof fn law_in_order(es: Seq<EntryView>)
    ensures
        ascending(in_order(es)),
        in_order(es).to_multiset() == es.to_multiset(),
        in_order(es).len() == es.len(),
    decreases es.len(),
{
    if es.len() > 0 {
        let rest = in_order(es.drop_last());
        law_in_order(es.drop_last());
        let p = lemma_put_inserts(rest, es.last());
        let out = in_order(es);
        assert(out == rest.insert(p, es.last()));
        assert forall|i: int, j: int| 0 <= i <= j < out.len() implies out[i].value.s
            <= out[j].value.s by {
            let a = if i < p {
                i
            } else {
                i - 1
            };
            let b = if j < p {
                j
            } else {
                j - 1
            };
            if i != p && j != p {
                assert(rest[a].value.s <= rest[b].value.s);
            } else if i == p && j > p {
                assert(rest[p].value.s <= rest[b].value.s);
            } else if j == p && i < p {
                assert(rest[i].value.s <= rest[p - 1].value.s);
            }
        }
        vstd::seq_lib::to_multiset_insert(rest, p, es.last());
        assert(es =~= es.drop_last().push(es.last()));
        vstd::seq_lib::to_multiset_build(es.drop_last(), es.last());
    }
}

proof fn lemma_put_filter(es: Seq<EntryView>, e: EntryView, p: spec_fn(EntryView) -> bool)
    requires
        ascending(es),
    ensures
        put_in_order(es, e).filter(p) == (if p(e) {
            put_in_order(es.filter(p), e)
        } else {
            es.filter(p)
        }),
    decreases es.len(),
{
    reveal(Seq::filter);
    if es.len() > 0 && es.last().value.s > e.value.s {
        let init = es.drop_last();
        lemma_put_filter(init, e, p);
        let out = put_in_order(es, e);
        assert(out.drop_last() =~= put_in_order(init, e));
        if p(es.last()) {
            assert(es.filter(p) == init.filter(p).push(es.last()));
            assert(es.filter(p).drop_last() =~= init.filter(p));
        }
    } else {
        let out = es.push(e);
        assert(out.drop_last() =~= es);
        assert forall|i: int| 0 <= i < es.filter(p).len() implies es.filter(p)[i].value.s
            <= e.value.s by {
            let x = es.filter(p)[i];
            assert(es.filter(p).contains(x));
            es.lemma_filter_contains_rev(p, x);
            let j = choose|j: int| 0 <= j < es.len() && es[j] == x;
            assert(es[j].value.s <= es[es.len() - 1].value.s);
        }
    }
}

/// Sorting what is left of entries leaves the same of the sorted entries: equal sequence numbers
/// stay in their given order.
pub proof fn law_order_is_stable(es: Seq<EntryView>, p: spec_fn(EntryView) -> bool)
    ensures
        in_order(es).filter(p) == in_order(es.filter(p)),
    decreases es.len(),
{
    reveal(Seq::filter);
    if es.len() > 0 {
        law_order_is_stable(es.drop_last(), p);
        law_in_order(es.drop_last());
        lemma_put_filter(in_order(es.drop_last()), es.last(), p);
        if p(es.last()) {
            let f = es.drop_last().filter(p);
            assert(es.filter(p) == f.push(es.last()));
            assert(f.push(es.last()).drop_last() =~= f);
        }
    }
}

// ---------------------------------------------------------------------------
// Tables and what is read from them
// ---------------------------------------------------------------------------

/// Whether `rows` are the rows of `t` with a selected key, in the order of their keys.
pub open spec fn lists(
    rows: Seq<RowView>,
    t: Map<Seq<char>, Option<ValueView>>,
    selected: spec_fn(Seq<char>) -> bool,
) -> bool {
    &&& forall|i: int|
        0 <= i < rows.len() ==> selected((#[trigger] rows[i]).key) && t.contains_pair(
            rows[i].key,
            rows[i].value,
        )
    &&& forall|k: Seq<char>| #[trigger]
        t.contains_key(k) && selected(k) ==> exists|i: int|
            0 <= i < rows.len() && (#[trigger] rows[i]).key == k
    &&& forall|i: int, j: int|
        0 <= i < j < rows.len() ==> key_before((#[trigger] rows[i]).key, (#[trigger] rows[j]).key)
}

/// The keys in the range of a mailbox.
pub open spec fn of_mailbox(mailbox: Seq<char>) -> spec_fn(Seq<char>) -> bool {
    |k: Seq<char>| in_range(k, mailbox.push(':'), mailbox.push(';'))
}

/// Every key.
pub open spec fn any_key() -> spec_fn(Seq<char>) -> bool {
    |k: Seq<char>| true
}

/// Whether a key is that of an envelope of a mailbox.
pub open spec fn is_queue_key(mailbox: Seq<char>, k: Seq<char>) -> bool {
    exists|id: u128| k == #[trigger] queue_key(mailbox, id)
}

/// Whether every key of a mailbox in `t` ends in the written form of an identifier, as every key
/// does that the store writes.
pub open spec fn canonical(t: Map<Seq<char>, Option<ValueView>>, mailbox: Seq<char>) -> bool {
    forall|k: Seq<char>| #[trigger]
        t.contains_key(k) && of_mailbox(mailbox)(k) ==> is_queue_key(mailbox, k)
}

/// Whether two tables hold the same under every key of a mailbox.
pub open spec fn same_mailbox(
    a: Map<Seq<char>, Option<ValueView>>,
    b: Map<Seq<char>, Option<ValueView>>,
    mailbox: Seq<char>,
) -> bool {
    forall|k: Seq<char>| #[trigger]
        of_mailbox(mailbox)(k) ==> a.contains_key(k) == b.contains_key(k) && (a.contains_key(k)
            ==> a[k] == b[k])
}

/// Whether a table holds an entry of a mailbox.
pub open spec fn has_entry(
    t: Map<Seq<char>, Option<ValueView>>,
    mailbox: Seq<char>,
    e: EntryView,
) -> bool {
    t.contains_pair(queue_key(mailbox, e.id), Some(e.value))
}

/// The writes as they stand in a table that may also hold values that cannot be decoded.
pub open spec fn decoded(ws: Seq<WriteView<ValueView>>) -> Seq<WriteView<Option<ValueView>>> {
    Seq::new(
        ws.len(),
        |i: int|
            match ws[i] {
                WriteView::Put { key, value } => WriteView::Put { key, value: Some(value) },
                WriteView::Remove { key } => WriteView::Remove { key },
            },
    )
}

/// The queued ciphertext bytes in a table.
pub open spec fn table_bytes(t: Map<Seq<char>, Option<ValueView>>) -> nat {
    total_of(t, |v: Option<ValueView>| value_bytes(v))
}

/// The key of an envelope lies in the range of its mailbox, and its identifier reads back.
pub proof fn law_key_roundtrip(mailbox: Seq<char>, id: u128)
    requires
        !mailbox.contains(':'),
    ensures
        key_id(queue_key(mailbox, id)) == Some(id),
        of_mailbox(mailbox)(queue_key(mailbox, id)),
{
    let k = queue_key(mailbox, id);
    let n = mailbox.len() as int;
    assert(k[n] == ':');
    assert forall|i: int| 0 <= i < n implies k[i] != ':' by {
        assert(k[i] == mailbox[i]);
        assert(mailbox.contains(mailbox[i]));
    }
    lemma_first_index_is(k, ':', n);
    assert(k.contains(':'));
    assert(k.skip(n + 1) =~= uuid_text(id));
    law_uuid_roundtrip(id);
    assert(k.take(n) =~= mailbox);
    law_range_selects_owner(k, mailbox);
}

/// Two keys of a mailbox are equal exactly where the identifiers are.
pub proof fn law_keys_distinct(mailbox: Seq<char>, a: u128, b: u128)
    requires
        !mailbox.contains(':'),
    ensures
        queue_key(mailbox, a) == queue_key(mailbox, b) <==> a == b,
{
    law_key_roundtrip(mailbox, a);
    law_key_roundtrip(mailbox, b);
}

/// No key lies in the ranges of two mailboxes.
pub proof fn law_mailboxes_disjoint(k: Seq<char>, a: Seq<char>, b: Seq<char>)
    requires
        !a.contains(':'),
        !b.contains(':'),
        of_mailbox(a)(k),
        of_mailbox(b)(k),
    ensures
        a == b,
{
    law_range_selects_owner(k, a);
    law_range_selects_owner(k, b);
    law_owners_are_disjoint(k, a, b);
}

/// A mailbox that two tables hold alike reads alike from both.
pub proof fn law_same_mailbox_reads_alike(
    rows: Seq<RowView>,
    a: Map<Seq<char>, Option<ValueView>>,
    b: Map<Seq<char>, Option<ValueView>>,
    mailbox: Seq<char>,
)
    requires
        same_mailbox(a, b, mailbox),
    ensures
        lists(rows, a, of_mailbox(mailbox)) <==> lists(rows, b, of_mailbox(mailbox)),
{
    let sel = of_mailbox(mailbox);
    assert forall|x: Map<Seq<char>, Option<ValueView>>, y: Map<Seq<char>, Option<ValueView>>|
        same_mailbox(x, y, mailbox) && #[trigger] lists(rows, x, sel) implies #[trigger] lists(
        rows,
        y,
        sel,
    ) by {
        assert forall|i: int| 0 <= i < rows.len() implies sel((#[trigger] rows[i]).key)
            && y.contains_pair(rows[i].key, rows[i].value) by {
            assert(sel(rows[i].key) && x.contains_pair(rows[i].key, rows[i].value));
        }
        assert forall|k: Seq<char>| #[trigger] y.contains_key(k) && sel(k) implies exists|i: int|
            0 <= i < rows.len() && (#[trigger] rows[i]).key == k by {
            assert(x.contains_key(k));
        }
    }
    assert(same_mailbox(b, a, mailbox)) by {
        assert forall|k: Seq<char>| #[trigger] of_mailbox(mailbox)(k) implies b.contains_key(k)
            == a.contains_key(k) && (b.contains_key(k) ==> b[k] == a[k]) by {}
    }
}

spec fn entry_before(mailbox: Seq<char>, a: EntryView, b: EntryView) -> bool {
    key_before(queue_key(mailbox, a.id), queue_key(mailbox, b.id))
}

spec fn increasing(mailbox: Seq<char>, es: Seq<EntryView>) -> bool {
    forall|i: int, j: int|
        0 <= i < j < es.len() ==> entry_before(mailbox, #[trigger] es[i], #[trigger] es[j])
}

proof fn lemma_filter_increasing(
    mailbox: Seq<char>,
    es: Seq<EntryView>,
    p: spec_fn(EntryView) -> bool,
)
    requires
        increasing(mailbox, es),
    ensures
        increasing(mailbox, es.filter(p)),
    decreases es.len(),
{
    reveal(Seq::filter);
    if es.len() > 0 {
        let init = es.drop_last();
        lemma_filter_increasing(mailbox, init, p);
        assert forall|i: int| 0 <= i < init.filter(p).len() implies entry_before(
            mailbox,
            #[trigger] init.filter(p)[i],
            es.last(),
        ) by {
            let x = init.filter(p)[i];
            assert(init.filter(p).contains(x));
            init.lemma_filter_contains_rev(p, x);
            let j = choose|j: int| 0 <= j < init.len() && init[j] == x;
            assert(entry_before(mailbox, es[j], es[es.len() - 1]));
        }
    }
}

/// Two increasing runs with the same entries are the same run.
proof fn lemma_same_entries(mailbox: Seq<char>, a: Seq<EntryView>, b: Seq<EntryView>)
    requires
        increasing(mailbox, a),
        increasing(mailbox, b),
        forall|e: EntryView| #[trigger] a.contains(e) <==> b.contains(e),
    ensures
        a == b,
    decreases a.len(),
{
    if a.len() == 0 {
        if b.len() > 0 {
            assert(b.contains(b[0]));
            assert(a.contains(b[0]));
        }
        assert(a =~= b);
    } else {
        let x = a.last();
        assert(a.contains(a[a.len() - 1]));
        assert(b.contains(x));
        let y = b.last();
        assert(b.contains(b[b.len() - 1]));
        assert(a.contains(y));
        let i = choose|i: int| 0 <= i < b.len() && b[i] == x;
        let j = choose|j: int| 0 <= j < a.len() && a[j] == y;
        law_key_order(queue_key(mailbox, x.id), queue_key(mailbox, y.id), queue_key(mailbox, x.id));
        assert(x == y) by {
            if i < b.len() - 1 && j < a.len() - 1 {
                assert(entry_before(mailbox, b[i], b[b.len() - 1]));
                assert(entry_before(mailbox, a[j], a[a.len() - 1]));
            }
        }
        let a1 = a.drop_last();
        let b1 = b.drop_last();
        assert forall|e: EntryView| #[trigger] a1.contains(e) <==> b1.contains(e) by {
            if a1.contains(e) {
                let m = choose|m: int| 0 <= m < a1.len() && a1[m] == e;
                assert(a[m] == e);
                assert(entry_before(mailbox, a[m], a[a.len() - 1]));
                assert(a.contains(e));
                let n = choose|n: int| 0 <= n < b.len() && b[n] == e;
                if n == b.len() - 1 {
                    law_key_order(
                        queue_key(mailbox, e.id),
                        queue_key(mailbox, e.id),
                        queue_key(mailbox, e.id),
                    );
                }
                assert(b1[n] == e);
            }
            if b1.contains(e) {
                let m = choose|m: int| 0 <= m < b1.len() && b1[m] == e;
                assert(b[m] == e);
                assert(entry_before(mailbox, b[m], b[b.len() - 1]));
                assert(b.contains(e));
                assert(a.contains(e));
                let n = choose|n: int| 0 <= n < a.len() && a[n] == e;
                if n == a.len() - 1 {
                    law_key_order(
                        queue_key(mailbox, e.id),
                        queue_key(mailbox, e.id),
                        queue_key(mailbox, e.id),
                    );
                }
                assert(a1[n] == e);
            }
        }
        lemma_same_entries(mailbox, a1, b1);
        assert(a =~= a1.push(x));
        assert(b =~= b1.push(y));
    }
}

proof fn lemma_readable_rows(rows: Seq<RowView>)
    ensures
        forall|e: EntryView| #[trigger]
            readable(rows).contains(e) <==> exists|i: int|
                0 <= i < rows.len() && row_entry(#[trigger] rows[i]) == Some(e),
    decreases rows.len(),
{
    if rows.len() > 0 {
        let init = rows.drop_last();
        lemma_readable_rows(init);
        assert forall|e: EntryView| #[trigger] readable(rows).contains(e) <==> exists|i: int|
            0 <= i < rows.len() && row_entry(#[trigger] rows[i]) == Some(e) by {
            let out = readable(rows);
            if out.contains(e) {
                let j = choose|j: int| 0 <= j < out.len() && out[j] == e;
                if j < readable(init).len() {
                    assert(readable(init)[j] == e);
                    assert(readable(init).contains(e));
                    let i = choose|i: int|
                        0 <= i < init.len() && row_entry(#[trigger] init[i]) == Some(e);
                    assert(row_entry(rows[i]) == Some(e));
                } else {
                    assert(row_entry(rows[rows.len() - 1]) == Some(e));
                }
            }
            if exists|i: int| 0 <= i < rows.len() && row_entry(#[trigger] rows[i]) == Some(e) {
                let i = choose|i: int|
                    0 <= i < rows.len() && row_entry(#[trigger] rows[i]) == Some(e);
                if i < init.len() {
                    assert(row_entry(init[i]) == Some(e));
                    assert(readable(init).contains(e));
                    let j = choose|j: int| 0 <= j < readable(init).len() && readable(init)[j] == e;
                    assert(out[j] == e);
                } else {
                    assert(out[out.len() - 1] == e);
                }
            }
        }
    }
}

proof fn lemma_readable_increasing(mailbox: Seq<char>, rows: Seq<RowView>)
    requires
        !mailbox.contains(':'),
        forall|i: int|
            0 <= i < rows.len() ==> is_queue_key(mailbox, (#[trigger] rows[i]).key),
        forall|i: int, j: int|
            0 <= i < j < rows.len() ==> key_before(
                (#[trigger] rows[i]).key,
                (#[trigger] rows[j]).key,
            ),
    ensures
        increasing(mailbox, readable(rows)),
    decreases rows.len(),
{
    if rows.len() > 0 {
        let init = rows.drop_last();
        lemma_readable_increasing(mailbox, init);
        lemma_readable_rows(init);
        let last = rows[rows.len() - 1];
        if let Some(e) = row_entry(last) {
            let id = choose|id: u128| last.key == #[trigger] queue_key(mailbox, id);
            law_key_roundtrip(mailbox, id);
            let before = readable(init);
            assert forall|j: int| 0 <= j < before.len() implies entry_before(
                mailbox,
                #[trigger] before[j],
                e,
            ) by {
                assert(before.contains(before[j]));
                let i = choose|i: int|
                    0 <= i < init.len() && row_entry(#[trigger] init[i]) == Some(before[j]);
                let other = choose|other: u128|
                    rows[i].key == #[trigger] queue_key(mailbox, other);
                law_key_roundtrip(mailbox, other);
                assert(key_before(rows[i].key, rows[rows.len() - 1].key));
            }
        }
    }
}

/// What is read of a mailbox is what the table holds under the keys of its envelopes.
pub proof fn law_reads_what_is_stored(
    rows: Seq<RowView>,
    t: Map<Seq<char>, Option<ValueView>>,
    mailbox: Seq<char>,
)
    requires
        !mailbox.contains(':'),
        canonical(t, mailbox),
        lists(rows, t, of_mailbox(mailbox)),
    ensures
        forall|e: EntryView| #[trigger]
            queue_of(rows).contains(e) <==> has_entry(t, mailbox, e),
        ascending(queue_of(rows)),
        forall|i: int, j: int|
            0 <= i < j < queue_of(rows).len() ==> (#[trigger] queue_of(rows)[i]).id != (
            #[trigger] queue_of(rows)[j]).id,
{
    lemma_readable_stored(rows, t, mailbox);
    let es = readable(rows);
    law_in_order(es);
    let q = queue_of(rows);
    assert forall|e: EntryView| #[trigger] q.contains(e) <==> es.contains(e) by {
        vstd::seq_lib::to_multiset_contains(q, e);
        vstd::seq_lib::to_multiset_contains(es, e);
    }
    lemma_in_order_distinct(es);
}

spec fn distinct_ids(es: Seq<EntryView>) -> bool {
    forall|i: int, j: int| 0 <= i < j < es.len() ==> (#[trigger] es[i]).id != (#[trigger] es[j]).id
}

proof fn lemma_in_order_distinct(es: Seq<EntryView>)
    requires
        distinct_ids(es),
    ensures
        distinct_ids(in_order(es)),
    decreases es.len(),
{
    if es.len() > 0 {
        let init = es.drop_last();
        lemma_in_order_distinct(init);
        law_in_order(init);
        let rest = in_order(init);
        let e = es.last();
        let p = lemma_put_inserts(rest, e);
        assert forall|i: int| 0 <= i < rest.len() implies (#[trigger] rest[i]).id != e.id by {
            vstd::seq_lib::to_multiset_contains(rest, rest[i]);
            vstd::seq_lib::to_multiset_contains(init, rest[i]);
            assert(rest.contains(rest[i]));
            let j = choose|j: int| 0 <= j < init.len() && init[j] == rest[i];
            assert(es[j].id != es[es.len() - 1].id);
        }
        let out = rest.insert(p, e);
        assert forall|i: int, j: int| 0 <= i < j < out.len() implies (#[trigger] out[i]).id != (
        #[trigger] out[j]).id by {
            let a = if i < p {
                i
            } else {
                i - 1
            };
            let b = if j < p {
                j
            } else {
                j - 1
            };
            if i != p && j != p {
                assert(rest[a].id != rest[b].id);
            } else if i == p {
                assert(rest[b].id != e.id);
            } else {
                assert(rest[a].id != e.id);
            }
        }
    }
}

proof fn lemma_readable_stored(
    rows: Seq<RowView>,
    t: Map<Seq<char>, Option<ValueView>>,
    mailbox: Seq<char>,
)
    requires
        !mailbox.contains(':'),
        canonical(t, mailbox),
        lists(rows, t, of_mailbox(mailbox)),
    ensures
        forall|e: EntryView| #[trigger]
            readable(rows).contains(e) <==> has_entry(t, mailbox, e),
        increasing(mailbox, readable(rows)),
        distinct_ids(readable(rows)),
{
    let sel = of_mailbox(mailbox);
    lemma_readable_rows(rows);
    assert forall|i: int| 0 <= i < rows.len() implies is_queue_key(
        mailbox,
        (#[trigger] rows[i]).key,
    ) by {
        assert(t.contains_key(rows[i].key) && sel(rows[i].key));
    }
    lemma_readable_increasing(mailbox, rows);
    let es = readable(rows);
    assert forall|e: EntryView| #[trigger] es.contains(e) <==> has_entry(t, mailbox, e) by {
        law_key_roundtrip(mailbox, e.id);
        if es.contains(e) {
            let i = choose|i: int| 0 <= i < rows.len() && row_entry(#[trigger] rows[i]) == Some(e);
            let id = choose|id: u128| rows[i].key == #[trigger] queue_key(mailbox, id);
            law_key_roundtrip(mailbox, id);
        }
        let k = queue_key(mailbox, e.id);
        if t.contains_pair(k, Some(e.value)) {
            assert(t.contains_key(k) && sel(k));
            let i = choose|i: int| 0 <= i < rows.len() && (#[trigger] rows[i]).key == k;
            assert(row_entry(rows[i]) == Some(e));
        }
    }
    assert forall|i: int, j: int| 0 <= i < j < es.len() implies (#[trigger] es[i]).id != (
    #[trigger] es[j]).id by {
        assert(entry_before(mailbox, es[i], es[j]));
        law_key_order(
            queue_key(mailbox, es[i].id),
            queue_key(mailbox, es[j].id),
            queue_key(mailbox, es[j].id),
        );
    }
}

/// What two tables hold alike of a mailbox is read alike, in the same order.
proof fn lemma_read_filtered(
    rows: Seq<RowView>,
    t: Map<Seq<char>, Option<ValueView>>,
    p: spec_fn(EntryView) -> bool,
    rows2: Seq<RowView>,
    t2: Map<Seq<char>, Option<ValueView>>,
    p2: spec_fn(EntryView) -> bool,
    mailbox: Seq<char>,
)
    requires
        !mailbox.contains(':'),
        canonical(t, mailbox),
        canonical(t2, mailbox),
        lists(rows, t, of_mailbox(mailbox)),
        lists(rows2, t2, of_mailbox(mailbox)),
        forall|e: EntryView|
            p(e) && #[trigger] has_entry(t, mailbox, e) ==> p2(e) && has_entry(t2, mailbox, e),
        forall|e: EntryView|
            p2(e) && #[trigger] has_entry(t2, mailbox, e) ==> p(e) && has_entry(t, mailbox, e),
    ensures
        queue_of(rows).filter(p) == queue_of(rows2).filter(p2),
{
    let a = readable(rows);
    let b = readable(rows2);
    lemma_readable_stored(rows, t, mailbox);
    lemma_readable_stored(rows2, t2, mailbox);
    lemma_filter_increasing(mailbox, a, p);
    lemma_filter_increasing(mailbox, b, p2);
    assert forall|e: EntryView| #[trigger] a.filter(p).contains(e) <==> b.filter(p2).contains(e) by {
        lemma_filter_has(a, p, e);
        lemma_filter_has(b, p2, e);
    }
    lemma_same_entries(mailbox, a.filter(p), b.filter(p2));
    law_order_is_stable(a, p);
    law_order_is_stable(b, p2);
}

proof fn lemma_filter_has(es: Seq<EntryView>, p: spec_fn(EntryView) -> bool, e: EntryView)
    ensures
        es.filter(p).contains(e) <==> es.contains(e) && p(e),
{
    if es.filter(p).contains(e) {
        es.lemma_filter_contains_rev(p, e);
        let i = choose|i: int| 0 <= i < es.filter(p).len() && es.filter(p)[i] == e;
        es.lemma_filter_pred(p, i);
    }
    if es.contains(e) && p(e) {
        let i = choose|i: int| 0 <= i < es.len() && es[i] == e;
        es.lemma_filter_contains(p, i);
    }
}

proof fn lemma_filter_all(es: Seq<EntryView>, p: spec_fn(EntryView) -> bool)
    requires
        forall|i: int| 0 <= i < es.len() ==> p(#[trigger] es[i]),
    ensures
        es.filter(p) == es,
    decreases es.len(),
{
    reveal(Seq::filter);
    if es.len() > 0 {
        lemma_filter_all(es.drop_last(), p);
        assert(p(es[es.len() - 1]));
        assert(es =~= es.drop_last().push(es.last()));
    } else {
        assert(es.filter(p) =~= es);
    }
}

proof fn lemma_filter_alike(
    es: Seq<EntryView>,
    p: spec_fn(EntryView) -> bool,
    p2: spec_fn(EntryView) -> bool,
)
    requires
        forall|i: int| 0 <= i < es.len() ==> p(#[trigger] es[i]) == p2(es[i]),
    ensures
        es.filter(p) == es.filter(p2),
    decreases es.len(),
{
    reveal(Seq::filter);
    if es.len() > 0 {
        lemma_filter_alike(es.drop_last(), p, p2);
        assert(p(es[es.len() - 1]) == p2(es[es.len() - 1]));
    }
}

proof fn lemma_filter_none(es: Seq<EntryView>, p: spec_fn(EntryView) -> bool)
    requires
        forall|i: int| 0 <= i < es.len() ==> !p(#[trigger] es[i]),
    ensures
        es.filter(p) == Seq::<EntryView>::empty(),
    decreases es.len(),
{
    reveal(Seq::filter);
    if es.len() > 0 {
        lemma_filter_none(es.drop_last(), p);
        assert(!p(es[es.len() - 1]));
    }
}

// ---------------------------------------------------------------------------
// Enqueue
// ---------------------------------------------------------------------------

/// Committing an enqueue takes the evicted entries out of the table and puts the new one in.
pub proof fn law_enqueue_commits(
    t: Map<Seq<char>, Option<ValueView>>,
    mailbox: Seq<char>,
    evicted: Seq<EntryView>,
    id: u128,
    value: ValueView,
)
    ensures
        applied(t, decoded(enqueue_writes(mailbox, evicted, id, value))) == without(
            t,
            keys_of(mailbox, evicted),
        ).insert(queue_key(mailbox, id), Some(value)),
{
    let ks = keys_of(mailbox, evicted);
    let ws = decoded(enqueue_writes(mailbox, evicted, id, value));
    assert(ws.drop_last() =~= removals::<Option<ValueView>>(ks));
    lemma_applied_removals(t, ks);
}

/// The table after an enqueue.
pub open spec fn table_after_enqueue(
    t: Map<Seq<char>, Option<ValueView>>,
    mailbox: Seq<char>,
    evicted: Seq<EntryView>,
    id: u128,
    value: ValueView,
) -> Map<Seq<char>, Option<ValueView>> {
    applied(t, decoded(enqueue_writes(mailbox, evicted, id, value)))
}

/// Whether an entry is not among the first `k`.
spec fn survives(es: Seq<EntryView>, k: int, e: EntryView) -> bool {
    forall|i: int| 0 <= i < k ==> (#[trigger] es[i]).id != e.id
}

/// The key of an envelope is among those of entries exactly where its identifier is.
proof fn lemma_key_among(mailbox: Seq<char>, es: Seq<EntryView>, id: u128)
    requires
        !mailbox.contains(':'),
    ensures
        keys_of(mailbox, es).to_set().contains(queue_key(mailbox, id)) <==> has_id(es, id),
{
    let ks = keys_of(mailbox, es);
    let key = queue_key(mailbox, id);
    if ks.contains(key) {
        let i = choose|i: int| 0 <= i < ks.len() && ks[i] == key;
        law_keys_distinct(mailbox, es[i].id, id);
        assert(es[i].id == id);
    }
    if has_id(es, id) {
        let i = choose|i: int| 0 <= i < es.len() && (#[trigger] es[i]).id == id;
        assert(ks[i] == key);
    }
}

/// Whether an entry is neither evicted nor replaced.
spec fn stays(q: Seq<EntryView>, k: int, id: u128, e: EntryView) -> bool {
    survives(q, k, e) && e.id != id
}

/// The entries that stay are those behind the evicted ones, without the replaced one.
proof fn lemma_what_stays(
    q: Seq<EntryView>,
    k: int,
    id: u128,
    p: spec_fn(EntryView) -> bool,
    p2: spec_fn(EntryView) -> bool,
)
    requires
        distinct_ids(q),
        0 <= k <= q.len(),
        forall|e: EntryView| #[trigger] p(e) == stays(q, k, id, e),
        forall|e: EntryView| #[trigger] p2(e) == (e.id != id),
    ensures
        q.filter(p) == q.skip(k).filter(p2),
{
    let gone = q.take(k);
    let rest = q.skip(k);
    assert(q =~= gone + rest);
    Seq::filter_distributes_over_add(gone, rest, p);
    assert forall|i: int| 0 <= i < gone.len() implies !p(#[trigger] gone[i]) by {
        assert(q[i].id == gone[i].id);
        assert(!survives(q, k, gone[i]));
    }
    lemma_filter_none(gone, p);
    assert forall|i: int| 0 <= i < rest.len() implies p(#[trigger] rest[i]) == p2(rest[i]) by {
        assert(rest[i] == q[k + i]);
        assert(survives(q, k, rest[i])) by {
            assert forall|j: int| 0 <= j < k implies (#[trigger] q[j]).id != rest[i].id by {
                assert(q[j].id != q[k + i].id);
            }
        }
    }
    lemma_filter_alike(rest, p, p2);
    assert(q.filter(p) =~= rest.filter(p2));
}

/// What a table holds of an entry after an enqueue, other than the new one.
proof fn lemma_enqueue_keeps(
    t: Map<Seq<char>, Option<ValueView>>,
    mailbox: Seq<char>,
    q: Seq<EntryView>,
    k: int,
    id: u128,
    value: ValueView,
    e: EntryView,
)
    requires
        !mailbox.contains(':'),
        0 <= k <= q.len(),
    ensures
        stays(q, k, id, e) && has_entry(t, mailbox, e) <==> e.id != id && has_entry(
            table_after_enqueue(t, mailbox, q.take(k), id, value),
            mailbox,
            e,
        ),
{
    let gone = q.take(k);
    law_enqueue_commits(t, mailbox, gone, id, value);
    law_keys_distinct(mailbox, e.id, id);
    lemma_key_among(mailbox, gone, e.id);
    assert(has_id(gone, e.id) <==> !survives(q, k, e)) by {
        if has_id(gone, e.id) {
            let i = choose|i: int| 0 <= i < gone.len() && (#[trigger] gone[i]).id == e.id;
            assert(q[i].id == e.id);
        }
        if !survives(q, k, e) {
            let i = choose|i: int| 0 <= i < k && (#[trigger] q[i]).id == e.id;
            assert(gone[i].id == e.id);
        }
    }
}

/// An enqueue keeps the keys of a mailbox as the store writes them.
proof fn lemma_enqueue_canonical(
    t: Map<Seq<char>, Option<ValueView>>,
    mailbox: Seq<char>,
    gone: Seq<EntryView>,
    id: u128,
    value: ValueView,
)
    requires
        canonical(t, mailbox),
    ensures
        canonical(table_after_enqueue(t, mailbox, gone, id, value), mailbox),
{
    let t2 = table_after_enqueue(t, mailbox, gone, id, value);
    let key = queue_key(mailbox, id);
    law_enqueue_commits(t, mailbox, gone, id, value);
    assert forall|x: Seq<char>| #[trigger]
        t2.contains_key(x) && of_mailbox(mailbox)(x) implies is_queue_key(mailbox, x) by {
        if x != key {
            assert(t.contains_key(x));
        }
    }
}

/// What is read after an enqueue, other than the new envelope, is what stays.
proof fn lemma_enqueue_rest(
    rows: Seq<RowView>,
    t: Map<Seq<char>, Option<ValueView>>,
    rows2: Seq<RowView>,
    mailbox: Seq<char>,
    k: int,
    id: u128,
    value: ValueView,
    p2: spec_fn(EntryView) -> bool,
)
    requires
        !mailbox.contains(':'),
        canonical(t, mailbox),
        lists(rows, t, of_mailbox(mailbox)),
        0 <= k <= queue_of(rows).len(),
        lists(
            rows2,
            table_after_enqueue(t, mailbox, queue_of(rows).take(k), id, value),
            of_mailbox(mailbox),
        ),
        forall|e: EntryView| #[trigger] p2(e) == (e.id != id),
    ensures
        queue_of(rows2).filter(p2) == queue_of(rows).skip(k).filter(p2),
{
    let q = queue_of(rows);
    let t2 = table_after_enqueue(t, mailbox, q.take(k), id, value);
    let p = |e: EntryView| stays(q, k, id, e);
    lemma_enqueue_canonical(t, mailbox, q.take(k), id, value);
    assert forall|e: EntryView| p(e) && #[trigger] has_entry(t, mailbox, e) implies p2(e)
        && has_entry(t2, mailbox, e) by {
        lemma_enqueue_keeps(t, mailbox, q, k, id, value, e);
    }
    assert forall|e: EntryView| p2(e) && #[trigger] has_entry(t2, mailbox, e) implies p(e)
        && has_entry(t, mailbox, e) by {
        lemma_enqueue_keeps(t, mailbox, q, k, id, value, e);
    }
    lemma_read_filtered(rows, t, p, rows2, t2, p2, mailbox);
    law_reads_what_is_stored(rows, t, mailbox);
    lemma_what_stays(q, k, id, p, p2);
}

/// The new envelope is the last that is read.
proof fn lemma_new_is_last(
    q: Seq<EntryView>,
    t: Map<Seq<char>, Option<ValueView>>,
    rows2: Seq<RowView>,
    mailbox: Seq<char>,
    k: int,
    id: u128,
    value: ValueView,
)
    requires
        !mailbox.contains(':'),
        canonical(t, mailbox),
        0 <= k <= q.len(),
        forall|e: EntryView| #[trigger] has_entry(t, mailbox, e) ==> e.value.s < value.s,
        lists(
            rows2,
            table_after_enqueue(t, mailbox, q.take(k), id, value),
            of_mailbox(mailbox),
        ),
    ensures
        distinct_ids(queue_of(rows2)),
        queue_of(rows2).len() > 0,
        queue_of(rows2).last() == (EntryView { id, value }),
{
    let new = EntryView { id, value };
    let t2 = table_after_enqueue(t, mailbox, q.take(k), id, value);
    let q2 = queue_of(rows2);
    lemma_enqueue_canonical(t, mailbox, q.take(k), id, value);
    law_reads_what_is_stored(rows2, t2, mailbox);
    law_enqueue_commits(t, mailbox, q.take(k), id, value);
    assert(has_entry(t2, mailbox, new));
    assert(q2.contains(new));
    let n = choose|n: int| 0 <= n < q2.len() && q2[n] == new;
    let last = q2[q2.len() - 1];
    if n < q2.len() - 1 {
        assert(q2[n].value.s <= last.value.s);
        assert(q2[n].id != last.id);
        assert(q2.contains(last));
        lemma_enqueue_keeps(t, mailbox, q, k, id, value, last);
        assert(has_entry(t, mailbox, last));
    }
}

/// Distinct entries are those before the last and the last.
proof fn lemma_but_last(q: Seq<EntryView>, p: spec_fn(EntryView) -> bool)
    requires
        distinct_ids(q),
        q.len() > 0,
        forall|e: EntryView| #[trigger] p(e) == (e.id != q.last().id),
    ensures
        q == q.filter(p).push(q.last()),
{
    let init = q.drop_last();
    assert forall|i: int| 0 <= i < init.len() implies p(#[trigger] init[i]) by {
        assert(q[i].id != q[q.len() - 1].id);
    }
    lemma_filter_all(init, p);
    reveal(Seq::filter);
    assert(q =~= init.push(q.last()));
}

/// The entries with another identifier.
pub open spec fn others(es: Seq<EntryView>, id: u128) -> Seq<EntryView> {
    es.filter(|e: EntryView| e.id != id)
}

/// What holds of the sequence numbers that are read holds of those in the table.
proof fn lemma_all_older(
    rows: Seq<RowView>,
    t: Map<Seq<char>, Option<ValueView>>,
    mailbox: Seq<char>,
    seq: u64,
)
    requires
        !mailbox.contains(':'),
        canonical(t, mailbox),
        lists(rows, t, of_mailbox(mailbox)),
        forall|i: int|
            0 <= i < queue_of(rows).len() ==> (#[trigger] queue_of(rows)[i]).value.s < seq,
    ensures
        forall|e: EntryView| #[trigger] has_entry(t, mailbox, e) ==> e.value.s < seq,
{
    let q = queue_of(rows);
    law_reads_what_is_stored(rows, t, mailbox);
    assert forall|e: EntryView| #[trigger] has_entry(t, mailbox, e) implies e.value.s < seq by {
        assert(q.contains(e));
        let j = choose|j: int| 0 <= j < q.len() && q[j] == e;
        assert(q[j].value.s < seq);
    }
}

/// An identifier that is not in the table is not read.
proof fn lemma_no_others(
    rows: Seq<RowView>,
    t: Map<Seq<char>, Option<ValueView>>,
    mailbox: Seq<char>,
    k: int,
    id: u128,
)
    requires
        !mailbox.contains(':'),
        canonical(t, mailbox),
        lists(rows, t, of_mailbox(mailbox)),
        0 <= k <= queue_of(rows).len(),
        !t.contains_key(queue_key(mailbox, id)),
    ensures
        others(queue_of(rows).skip(k), id) == queue_of(rows).skip(k),
{
    let q = queue_of(rows);
    let rest = q.skip(k);
    let p = |e: EntryView| e.id != id;
    law_reads_what_is_stored(rows, t, mailbox);
    assert forall|i: int| 0 <= i < rest.len() implies p(#[trigger] rest[i]) by {
        assert(rest[i] == q[k + i]);
        assert(q.contains(q[k + i]));
        assert(has_entry(t, mailbox, q[k + i]));
    }
    lemma_filter_all(rest, p);
}

/// First in, first out: after an enqueue a mailbox reads as before, without the evicted oldest
/// entries and with the new envelope at the end. An envelope that was queued under the same
/// identifier is replaced, and goes to the end too.
pub proof fn law_enqueue_appends(
    rows: Seq<RowView>,
    t: Map<Seq<char>, Option<ValueView>>,
    rows2: Seq<RowView>,
    mailbox: Seq<char>,
    k: int,
    id: u128,
    value: ValueView,
)
    requires
        !mailbox.contains(':'),
        canonical(t, mailbox),
        lists(rows, t, of_mailbox(mailbox)),
        0 <= k <= queue_of(rows).len(),
        forall|i: int|
            0 <= i < queue_of(rows).len() ==> (#[trigger] queue_of(rows)[i]).value.s < value.s,
        lists(
            rows2,
            table_after_enqueue(t, mailbox, queue_of(rows).take(k), id, value),
            of_mailbox(mailbox),
        ),
    ensures
        canonical(table_after_enqueue(t, mailbox, queue_of(rows).take(k), id, value), mailbox),
        queue_of(rows2) == others(queue_of(rows).skip(k), id).push(EntryView { id, value }),
        !t.contains_key(queue_key(mailbox, id)) ==> queue_of(rows2) == queue_of(rows).skip(k).push(
            EntryView { id, value },
        ),
{
    let q = queue_of(rows);
    let p = |e: EntryView| e.id != id;
    lemma_all_older(rows, t, mailbox, value.s);
    lemma_enqueue_canonical(t, mailbox, q.take(k), id, value);
    lemma_new_is_last(q, t, rows2, mailbox, k, id, value);
    lemma_but_last(queue_of(rows2), p);
    lemma_enqueue_rest(rows, t, rows2, mailbox, k, id, value, p);
    if !t.contains_key(queue_key(mailbox, id)) {
        lemma_no_others(rows, t, mailbox, k, id);
    }
}

/// An enqueue leaves every other mailbox as it was.
pub proof fn law_enqueue_is_isolated(
    t: Map<Seq<char>, Option<ValueView>>,
    mailbox: Seq<char>,
    other: Seq<char>,
    evicted: Seq<EntryView>,
    id: u128,
    value: ValueView,
)
    requires
        !mailbox.contains(':'),
        !other.contains(':'),
        other != mailbox,
    ensures
        same_mailbox(t, table_after_enqueue(t, mailbox, evicted, id, value), other),
{
    law_enqueue_commits(t, mailbox, evicted, id, value);
    let ks = keys_of(mailbox, evicted);
    assert forall|k: Seq<char>| #[trigger] of_mailbox(other)(k) implies k != queue_key(mailbox, id)
        && !ks.to_set().contains(k) by {
        law_key_roundtrip(mailbox, id);
        if k == queue_key(mailbox, id) {
            law_mailboxes_disjoint(k, mailbox, other);
        }
        if ks.contains(k) {
            let i = choose|i: int| 0 <= i < ks.len() && ks[i] == k;
            law_key_roundtrip(mailbox, evicted[i].id);
            law_mailboxes_disjoint(k, mailbox, other);
        }
    }
}

/// A mailbox never outgrows its limits: with the oldest entries evicted and an envelope within the
/// byte budget appended, it holds no more envelopes and no more bytes than it may.
pub proof fn law_mailbox_limits(es: Seq<EntryView>, k: int, new: EntryView)
    requires
        is_eviction(es, byte_len(new.value.c), k),
        byte_len(new.value.c) <= PER_MAILBOX_QUEUE_BYTES,
    ensures
        es.skip(k).push(new).len() <= MAX_QUEUE_PER_RECIPIENT,
        queue_bytes(es.skip(k).push(new)) <= PER_MAILBOX_QUEUE_BYTES,
{
    let rest = es.skip(k);
    assert(rest.push(new).drop_last() =~= rest);
    if k == es.len() {
        assert(rest =~= Seq::empty());
        assert(queue_bytes(rest) == 0);
    }
}

/// Nothing is evicted where there is room.
pub proof fn law_no_needless_eviction(es: Seq<EntryView>, incoming: nat, k: int)
    requires
        is_eviction(es, incoming, k),
        crate::queue_store::has_room(es, incoming),
    ensures
        k == 0,
{
    assert(es.skip(0) =~= es);
}

// ---------------------------------------------------------------------------
// Removal
// ---------------------------------------------------------------------------

/// Whether no two rows have the same key.
pub open spec fn distinct_rows(rows: Seq<RowView>) -> bool {
    forall|i: int, j: int|
        0 <= i < j < rows.len() ==> (#[trigger] rows[i]).key != (#[trigger] rows[j]).key
}

/// Whether a table holds every one of some rows.
pub open spec fn holds(t: Map<Seq<char>, Option<ValueView>>, rows: Seq<RowView>) -> bool {
    forall|i: int|
        0 <= i < rows.len() ==> t.contains_pair((#[trigger] rows[i]).key, rows[i].value)
}

/// Rows taken out of a table take exactly their bytes with them.
pub proof fn law_removal_frees_bytes(t: Map<Seq<char>, Option<ValueView>>, rows: Seq<RowView>)
    requires
        t.dom().finite(),
        holds(t, rows),
        distinct_rows(rows),
    ensures
        without(t, row_keys(rows)).dom().finite(),
        table_bytes(without(t, row_keys(rows))) + rows_bytes(rows) == table_bytes(t),
    decreases rows.len(),
{
    let w = |v: Option<ValueView>| value_bytes(v);
    if rows.len() == 0 {
        assert(without(t, row_keys(rows)) =~= t);
    } else {
        let init = rows.drop_last();
        let last = rows[rows.len() - 1];
        law_removal_frees_bytes(t, init);
        let t1 = without(t, row_keys(init));
        let ks = row_keys(init);
        assert(!ks.to_set().contains(last.key)) by {
            if ks.contains(last.key) {
                let i = choose|i: int| 0 <= i < ks.len() && ks[i] == last.key;
                assert(rows[i].key != last.key);
            }
        }
        assert(t1.contains_key(last.key));
        lemma_total_remove(t1, w, last.key);
        assert(row_keys(rows) =~= ks.push(last.key));
        assert(without(t, row_keys(rows)) =~= t1.remove(last.key)) by {
            assert forall|k: Seq<char>| row_keys(rows).to_set().contains(k) <==> ks.to_set().contains(
                k,
            ) || k == last.key by {
                let all = row_keys(rows);
                if ks.contains(k) {
                    let i = choose|i: int| 0 <= i < ks.len() && ks[i] == k;
                    assert(all[i] == k);
                }
                assert(all[all.len() - 1] == last.key);
                if all.contains(k) && k != last.key {
                    let i = choose|i: int| 0 <= i < all.len() && all[i] == k;
                    assert(ks[i] == k);
                }
            }
        }
    }
}

/// The rows that a listing gives are distinct and in the table.
pub proof fn law_listing_is_distinct(
    rows: Seq<RowView>,
    t: Map<Seq<char>, Option<ValueView>>,
    selected: spec_fn(Seq<char>) -> bool,
)
    requires
        lists(rows, t, selected),
    ensures
        distinct_rows(rows),
        holds(t, rows),
{
    assert forall|i: int, j: int| 0 <= i < j < rows.len() implies (#[trigger] rows[i]).key != (
    #[trigger] rows[j]).key by {
        law_key_order(rows[i].key, rows[j].key, rows[j].key);
    }
}

/// Keys in the range of one mailbox, taken out, leave every other mailbox as it was.
pub proof fn law_removal_is_isolated(
    t: Map<Seq<char>, Option<ValueView>>,
    keys: Seq<Seq<char>>,
    mailbox: Seq<char>,
    other: Seq<char>,
)
    requires
        !mailbox.contains(':'),
        !other.contains(':'),
        other != mailbox,
        forall|i: int| 0 <= i < keys.len() ==> of_mailbox(mailbox)(#[trigger] keys[i]),
    ensures
        same_mailbox(t, without(t, keys), other),
{
    assert forall|k: Seq<char>| #[trigger] of_mailbox(other)(k) implies !keys.to_set().contains(
        k,
    ) by {
        if keys.contains(k) {
            let i = choose|i: int| 0 <= i < keys.len() && keys[i] == k;
            assert(of_mailbox(mailbox)(keys[i]));
            law_mailboxes_disjoint(k, mailbox, other);
        }
    }
}

/// Purging a mailbox leaves nothing of it and takes exactly its bytes.
pub proof fn law_purge_empties(
    rows: Seq<RowView>,
    t: Map<Seq<char>, Option<ValueView>>,
    mailbox: Seq<char>,
)
    requires
        t.dom().finite(),
        lists(rows, t, of_mailbox(mailbox)),
    ensures
        lists(Seq::empty(), without(t, row_keys(rows)), of_mailbox(mailbox)),
        table_bytes(without(t, row_keys(rows))) + rows_bytes(rows) == table_bytes(t),
{
    let t2 = without(t, row_keys(rows));
    let ks = row_keys(rows);
    law_listing_is_distinct(rows, t, of_mailbox(mailbox));
    law_removal_frees_bytes(t, rows);
    assert forall|k: Seq<char>| #[trigger] t2.contains_key(k) implies !of_mailbox(mailbox)(k) by {
        if of_mailbox(mailbox)(k) {
            assert(t.contains_key(k));
            let i = choose|i: int| 0 <= i < rows.len() && (#[trigger] rows[i]).key == k;
            assert(ks[i] == k);
        }
    }
}

/// Whether lookups say what a table holds.
pub open spec fn reflects(
    ls: Seq<LookupView>,
    t: Map<Seq<char>, Option<ValueView>>,
    mailbox: Seq<char>,
) -> bool {
    forall|i: int|
        0 <= i < ls.len() ==> (#[trigger] ls[i]).row == (if t.contains_key(
            queue_key(mailbox, ls[i].id),
        ) {
            Some(t[queue_key(mailbox, ls[i].id)])
        } else {
            None
        })
}

/// An acknowledgement takes each acknowledged row of the table, once.
pub proof fn law_acked_rows(
    ls: Seq<LookupView>,
    t: Map<Seq<char>, Option<ValueView>>,
    mailbox: Seq<char>,
)
    requires
        !mailbox.contains(':'),
        reflects(ls, t, mailbox),
    ensures
        holds(t, acked_rows(mailbox, ls)),
        distinct_rows(acked_rows(mailbox, ls)),
        forall|id: u128|
            row_keys(acked_rows(mailbox, ls)).contains(#[trigger] queue_key(mailbox, id))
                <==> t.contains_key(queue_key(mailbox, id)) && seen_before(
                ls,
                ls.len() as int,
                id,
            ),
        forall|i: int|
            0 <= i < acked_rows(mailbox, ls).len() ==> is_queue_key(
                mailbox,
                (#[trigger] acked_rows(mailbox, ls)[i]).key,
            ),
    decreases ls.len(),
{
    let out = acked_rows(mailbox, ls);
    if ls.len() > 0 {
        let init = ls.drop_last();
        let last = ls[ls.len() - 1];
        assert(reflects(init, t, mailbox)) by {
            assert forall|i: int| 0 <= i < init.len() implies (#[trigger] init[i]).row == (
            if t.contains_key(queue_key(mailbox, init[i].id)) {
                Some(t[queue_key(mailbox, init[i].id)])
            } else {
                None
            }) by {
                assert(ls[i] == init[i]);
            }
        }
        law_acked_rows(init, t, mailbox);
        let before = acked_rows(mailbox, init);
        assert(seen_before(ls, init.len() as int, last.id) == seen_before(
            init,
            init.len() as int,
            last.id,
        )) by {
            if seen_before(ls, init.len() as int, last.id) {
                let j = choose|j: int| 0 <= j < init.len() && (#[trigger] ls[j]).id == last.id;
                assert(init[j].id == last.id);
            }
            if seen_before(init, init.len() as int, last.id) {
                let j = choose|j: int| 0 <= j < init.len() && (#[trigger] init[j]).id == last.id;
                assert(ls[j].id == last.id);
            }
        }
        let key = queue_key(mailbox, last.id);
        assert(row_keys(before).contains(key) ==> seen_before(init, init.len() as int, last.id));
        if out != before {
            let row = out[out.len() - 1];
            assert(out == before.push(row));
            assert(row.key == key);
            assert forall|i: int| 0 <= i < before.len() implies (#[trigger] before[i]).key
                != key by {
                assert(row_keys(before)[i] == before[i].key);
            }
            assert(is_queue_key(mailbox, row.key));
        }
        assert forall|id: u128|
            row_keys(out).contains(#[trigger] queue_key(mailbox, id)) <==> t.contains_key(
                queue_key(mailbox, id),
            ) && seen_before(ls, ls.len() as int, id) by {
            law_keys_distinct(mailbox, id, last.id);
            assert(seen_before(ls, ls.len() as int, id) <==> seen_before(
                init,
                init.len() as int,
                id,
            ) || id == last.id) by {
                if seen_before(ls, ls.len() as int, id) && id != last.id {
                    let j = choose|j: int| 0 <= j < ls.len() && (#[trigger] ls[j]).id == id;
                    assert(init[j].id == id);
                }
                if seen_before(init, init.len() as int, id) {
                    let j = choose|j: int| 0 <= j < init.len() && (#[trigger] init[j]).id == id;
                    assert(ls[j].id == id);
                }
                assert(ls[ls.len() - 1].id == last.id);
            }
            let k = queue_key(mailbox, id);
            assert(row_keys(before).contains(k) ==> row_keys(out).contains(k)) by {
                if row_keys(before).contains(k) {
                    let i = choose|i: int|
                        0 <= i < row_keys(before).len() && row_keys(before)[i] == k;
                    assert(row_keys(out)[i] == k);
                }
            }
            if out != before {
                assert(row_keys(out)[out.len() - 1] == key);
                if row_keys(out).contains(k) && k != key {
                    let i = choose|i: int| 0 <= i < row_keys(out).len() && row_keys(out)[i] == k;
                    assert(row_keys(before)[i] == k);
                }
            }
        }
    } else {
        assert(row_keys(out).len() == 0);
    }
}

/// After an acknowledgement a mailbox reads as before, without the acknowledged envelopes.
pub proof fn law_ack_removes(
    rows: Seq<RowView>,
    t: Map<Seq<char>, Option<ValueView>>,
    rows2: Seq<RowView>,
    ls: Seq<LookupView>,
    mailbox: Seq<char>,
)
    requires
        !mailbox.contains(':'),
        canonical(t, mailbox),
        lists(rows, t, of_mailbox(mailbox)),
        reflects(ls, t, mailbox),
        lists(
            rows2,
            without(t, row_keys(acked_rows(mailbox, ls))),
            of_mailbox(mailbox),
        ),
    ensures
        queue_of(rows2) == queue_of(rows).filter(
            |e: EntryView| !seen_before(ls, ls.len() as int, e.id),
        ),
{
    let ks = row_keys(acked_rows(mailbox, ls));
    let t2 = without(t, ks);
    law_acked_rows(ls, t, mailbox);
    assert(canonical(t2, mailbox)) by {
        assert forall|x: Seq<char>| #[trigger]
            t2.contains_key(x) && of_mailbox(mailbox)(x) implies is_queue_key(mailbox, x) by {
            assert(t.contains_key(x));
        }
    }
    let p = |e: EntryView| !seen_before(ls, ls.len() as int, e.id);
    let p2 = |e: EntryView| true;
    assert forall|e: EntryView|
        #![trigger has_entry(t, mailbox, e)]
        #![trigger has_entry(t2, mailbox, e)]
        p(e) && has_entry(t, mailbox, e) <==> p2(e) && has_entry(t2, mailbox, e) by {
        let x = queue_key(mailbox, e.id);
        assert(ks.contains(x) <==> t.contains_key(x) && seen_before(ls, ls.len() as int, e.id));
    }
    lemma_read_filtered(rows, t, p, rows2, t2, p2, mailbox);
    lemma_filter_all(queue_of(rows2), p2);
}

/// A sweep takes exactly the rows queued before the cutoff, and exactly their bytes.
pub proof fn law_sweep_removes_stale(
    rows: Seq<RowView>,
    t: Map<Seq<char>, Option<ValueView>>,
    cutoff: u64,
)
    requires
        t.dom().finite(),
        lists(rows, t, any_key()),
    ensures
        without(t, row_keys(stale_rows(rows, cutoff))) == t.restrict(
            Set::new(
                |k: Seq<char>| t.contains_key(k) && !is_stale(RowView { key: k, value: t[k] }, cutoff),
            ),
        ),
        table_bytes(without(t, row_keys(stale_rows(rows, cutoff)))) + rows_bytes(
            stale_rows(rows, cutoff),
        ) == table_bytes(t),
{
    let p = |r: RowView| is_stale(r, cutoff);
    let stale = stale_rows(rows, cutoff);
    let ks = row_keys(stale);
    law_listing_is_distinct(rows, t, any_key());
    lemma_filter_rows(rows, t, p);
    law_removal_frees_bytes(t, stale);
    let kept = t.restrict(
        Set::new(
            |k: Seq<char>| t.contains_key(k) && !is_stale(RowView { key: k, value: t[k] }, cutoff),
        ),
    );
    assert forall|k: Seq<char>| t.contains_key(k) implies (#[trigger] ks.to_set().contains(k)
        <==> is_stale(RowView { key: k, value: t[k] }, cutoff)) by {
        assert(any_key()(k));
        let i = choose|i: int| 0 <= i < rows.len() && (#[trigger] rows[i]).key == k;
        assert(t.contains_pair(rows[i].key, rows[i].value));
        if ks.contains(k) {
            let j = choose|j: int| 0 <= j < ks.len() && ks[j] == k;
            rows.lemma_filter_pred(p, j);
            assert(t.contains_pair(stale[j].key, stale[j].value));
        }
        if is_stale(rows[i], cutoff) {
            rows.lemma_filter_contains(p, i);
            let j = choose|j: int| 0 <= j < stale.len() && stale[j] == rows[i];
            assert(ks[j] == k);
        }
    }
    assert(without(t, ks) =~= kept);
}

proof fn lemma_filter_rows(
    rows: Seq<RowView>,
    t: Map<Seq<char>, Option<ValueView>>,
    p: spec_fn(RowView) -> bool,
)
    requires
        distinct_rows(rows),
        holds(t, rows),
    ensures
        distinct_rows(rows.filter(p)),
        holds(t, rows.filter(p)),
    decreases rows.len(),
{
    reveal(Seq::filter);
    if rows.len() > 0 {
        let init = rows.drop_last();
        let last = rows[rows.len() - 1];
        lemma_filter_rows(init, t, p);
        assert forall|i: int| 0 <= i < init.filter(p).len() implies (#[trigger] init.filter(
            p,
        )[i]).key != last.key by {
            let x = init.filter(p)[i];
            assert(init.filter(p).contains(x));
            init.lemma_filter_contains_rev(p, x);
            let j = choose|j: int| 0 <= j < init.len() && init[j] == x;
            assert(rows[j].key != last.key);
        }
    }
}

// ---------------------------------------------------------------------------
// Totals
// ---------------------------------------------------------------------------

/// The rows of entries of a mailbox.
spec fn rows_of(mailbox: Seq<char>, es: Seq<EntryView>) -> Seq<RowView> {
    Seq::new(
        es.len(),
        |i: int| RowView { key: queue_key(mailbox, es[i].id), value: Some(es[i].value) },
    )
}

proof fn lemma_rows_of_bytes(mailbox: Seq<char>, es: Seq<EntryView>)
    ensures
        rows_bytes(rows_of(mailbox, es)) == queue_bytes(es),
    decreases es.len(),
{
    if es.len() > 0 {
        lemma_rows_of_bytes(mailbox, es.drop_last());
        assert(rows_of(mailbox, es).drop_last() =~= rows_of(mailbox, es.drop_last()));
    }
}

proof fn lemma_bytes_under_none(rows: Seq<RowView>, key: Seq<char>)
    requires
        forall|i: int| 0 <= i < rows.len() ==> (#[trigger] rows[i]).key != key,
    ensures
        bytes_under(rows, key) == 0,
    decreases rows.len(),
{
    if rows.len() > 0 {
        assert(rows[rows.len() - 1].key != key);
        assert forall|i: int| 0 <= i < rows.drop_last().len() implies (
        #[trigger] rows.drop_last()[i]).key != key by {
            assert(rows[i].key != key);
        }
        lemma_bytes_under_none(rows.drop_last(), key);
    }
}

proof fn lemma_bytes_under_at(rows: Seq<RowView>, key: Seq<char>, i: int)
    requires
        0 <= i < rows.len(),
        rows[i].key == key,
        forall|j: int| i < j < rows.len() ==> (#[trigger] rows[j]).key != key,
    ensures
        bytes_under(rows, key) == value_bytes(rows[i].value),
    decreases rows.len(),
{
    if i < rows.len() - 1 {
        let init = rows.drop_last();
        assert(rows[rows.len() - 1].key != key);
        assert forall|j: int| i < j < init.len() implies (#[trigger] init[j]).key != key by {
            assert(rows[j].key != key);
        }
        lemma_bytes_under_at(init, key, i);
    }
}

/// The bytes under a key that a listing gives are those that the table holds there.
proof fn lemma_bytes_under(
    rows: Seq<RowView>,
    t: Map<Seq<char>, Option<ValueView>>,
    sel: spec_fn(Seq<char>) -> bool,
    key: Seq<char>,
)
    requires
        lists(rows, t, sel),
        sel(key),
    ensures
        bytes_under(rows, key) == (if t.contains_key(key) {
            value_bytes(t[key])
        } else {
            0
        }),
{
    if t.contains_key(key) {
        let i = choose|i: int| 0 <= i < rows.len() && (#[trigger] rows[i]).key == key;
        assert(t.contains_pair(rows[i].key, rows[i].value));
        assert forall|j: int| i < j < rows.len() implies (#[trigger] rows[j]).key != key by {
            assert(key_before(rows[i].key, rows[j].key));
            law_key_order(key, key, key);
        }
        lemma_bytes_under_at(rows, key, i);
    } else {
        assert forall|i: int| 0 <= i < rows.len() implies (#[trigger] rows[i]).key != key by {
            assert(t.contains_pair(rows[i].key, rows[i].value));
        }
        lemma_bytes_under_none(rows, key);
    }
}

/// The rows of evicted entries are in the table, each once.
proof fn lemma_evicted_rows(
    rows: Seq<RowView>,
    t: Map<Seq<char>, Option<ValueView>>,
    mailbox: Seq<char>,
    k: int,
)
    requires
        !mailbox.contains(':'),
        canonical(t, mailbox),
        lists(rows, t, of_mailbox(mailbox)),
        0 <= k <= queue_of(rows).len(),
    ensures
        holds(t, rows_of(mailbox, queue_of(rows).take(k))),
        distinct_rows(rows_of(mailbox, queue_of(rows).take(k))),
        row_keys(rows_of(mailbox, queue_of(rows).take(k))) == keys_of(
            mailbox,
            queue_of(rows).take(k),
        ),
{
    let gone = queue_of(rows).take(k);
    let rs = rows_of(mailbox, gone);
    law_reads_what_is_stored(rows, t, mailbox);
    let q = queue_of(rows);
    assert forall|i: int| 0 <= i < rs.len() implies t.contains_pair(
        (#[trigger] rs[i]).key,
        rs[i].value,
    ) by {
        assert(q.contains(q[i]));
        assert(has_entry(t, mailbox, q[i]));
    }
    assert forall|i: int, j: int| 0 <= i < j < rs.len() implies (#[trigger] rs[i]).key != (
    #[trigger] rs[j]).key by {
        law_keys_distinct(mailbox, q[i].id, q[j].id);
        assert(q[i].id != q[j].id);
    }
    assert(row_keys(rs) =~= keys_of(mailbox, gone));
}

/// A row put into a table adds its bytes and takes those of the row that it replaces.
proof fn lemma_put_bytes(t: Map<Seq<char>, Option<ValueView>>, key: Seq<char>, value: ValueView)
    requires
        t.dom().finite(),
    ensures
        t.insert(key, Some(value)).dom().finite(),
        table_bytes(t.insert(key, Some(value))) + (if t.contains_key(key) {
            value_bytes(t[key])
        } else {
            0
        }) == table_bytes(t) + byte_len(value.c),
        t.contains_key(key) ==> value_bytes(t[key]) <= table_bytes(t),
{
    let w = |v: Option<ValueView>| value_bytes(v);
    let rest = t.remove(key);
    if t.contains_key(key) {
        lemma_total_remove(t, w, key);
    } else {
        assert(rest =~= t);
    }
    lemma_total_insert(rest, w, key, Some(value));
    assert(rest.insert(key, Some(value)) =~= t.insert(key, Some(value)));
}

/// The counter after an enqueue, where nothing is cut off.
proof fn lemma_counted(total: usize, incoming: nat, evicted: nat, replaced: nat, after: nat)
    requires
        total + incoming <= usize::MAX,
        evicted + replaced <= total,
        after + evicted + replaced == total + incoming,
    ensures
        counted_enqueue(
            total,
            incoming as usize,
            crate::queue_store::capped(evicted),
            replaced as usize,
        ) == after,
{
}

/// An enqueue changes the bytes in the table by those of the new envelope less those of the
/// evicted ones and of the one that it replaces, and a store that counted the table right counts
/// it right afterwards.
pub proof fn law_enqueue_counts(
    rows: Seq<RowView>,
    t: Map<Seq<char>, Option<ValueView>>,
    mailbox: Seq<char>,
    k: int,
    id: u128,
    value: ValueView,
    total: usize,
)
    requires
        t.dom().finite(),
        !mailbox.contains(':'),
        canonical(t, mailbox),
        lists(rows, t, of_mailbox(mailbox)),
        0 <= k <= queue_of(rows).len(),
        total == table_bytes(t),
        total + byte_len(value.c) <= usize::MAX,
    ensures
        table_after_enqueue(t, mailbox, queue_of(rows).take(k), id, value).dom().finite(),
        replaced_bytes(rows, mailbox, queue_of(rows).take(k), id) <= total,
        counted_enqueue(
            total,
            byte_len(value.c) as usize,
            crate::queue_store::capped(queue_bytes(queue_of(rows).take(k))),
            replaced_bytes(rows, mailbox, queue_of(rows).take(k), id) as usize,
        ) == table_bytes(table_after_enqueue(t, mailbox, queue_of(rows).take(k), id, value)),
{
    let gone = queue_of(rows).take(k);
    let rs = rows_of(mailbox, gone);
    let key = queue_key(mailbox, id);
    let t1 = without(t, keys_of(mailbox, gone));
    law_enqueue_commits(t, mailbox, gone, id, value);
    lemma_evicted_rows(rows, t, mailbox, k);
    law_removal_frees_bytes(t, rs);
    lemma_rows_of_bytes(mailbox, gone);
    law_key_roundtrip(mailbox, id);
    lemma_bytes_under(rows, t, of_mailbox(mailbox), key);
    lemma_key_among(mailbox, gone, id);
    lemma_put_bytes(t1, key, value);
    lemma_counted(
        total,
        byte_len(value.c),
        queue_bytes(gone),
        replaced_bytes(rows, mailbox, gone, id),
        table_bytes(t1.insert(key, Some(value))),
    );
}

/// A store that counted the table right counts it right after a removal.
pub proof fn law_removal_counts(
    t: Map<Seq<char>, Option<ValueView>>,
    rows: Seq<RowView>,
    total: usize,
)
    requires
        t.dom().finite(),
        holds(t, rows),
        distinct_rows(rows),
        total == table_bytes(t),
    ensures
        lowered(total, crate::queue_store::capped(rows_bytes(rows))) == table_bytes(
            without(t, row_keys(rows)),
        ),
{
    law_removal_frees_bytes(t, rows);
}

/// Opening a table rebuilds the totals: the bytes are those that it holds, and no stored sequence
/// number is past the largest found.
pub proof fn law_reopen(rows: Seq<RowView>, t: Map<Seq<char>, Option<ValueView>>)
    requires
        t.dom().finite(),
        lists(rows, t, any_key()),
    ensures
        rows_bytes(rows) == table_bytes(t),
        forall|k: Seq<char>|
            #![trigger t[k]]
            t.contains_key(k) ==> (t[k] matches Some(v) ==> v.s <= rows_max_seq(rows)),
{
    law_listing_is_distinct(rows, t, any_key());
    law_removal_frees_bytes(t, rows);
    let ks = row_keys(rows);
    let rest = without(t, ks);
    assert forall|k: Seq<char>| !(#[trigger] rest.contains_key(k)) by {
        if t.contains_key(k) {
            assert(any_key()(k));
            let i = choose|i: int| 0 <= i < rows.len() && (#[trigger] rows[i]).key == k;
            assert(ks[i] == k);
        }
    }
    assert(rest.dom() =~= Set::empty());
    assert forall|k: Seq<char>| #![trigger t[k]] t.contains_key(k) implies (t[k] matches Some(v)
        ==> v.s <= rows_max_seq(rows)) by {
        assert(any_key()(k));
        let i = choose|i: int| 0 <= i < rows.len() && (#[trigger] rows[i]).key == k;
        assert(t.contains_pair(rows[i].key, rows[i].value));
        lemma_max_seq(rows, i);
    }
}

proof fn lemma_max_seq(rows: Seq<RowView>, i: int)
    requires
        0 <= i < rows.len(),
    ensures
        rows[i].value matches Some(v) ==> v.s <= rows_max_seq(rows),
    decreases rows.len(),
{
    if i < rows.len() - 1 {
        lemma_max_seq(rows.drop_last(), i);
    }
}

// ---------------------------------------------------------------------------
// What every operation keeps
// ---------------------------------------------------------------------------

/// Whether every sequence number in a table is below `seq`.
pub open spec fn numbers_below(t: Map<Seq<char>, Option<ValueView>>, seq: u64) -> bool {
    forall|k: Seq<char>| #[trigger]
        t.contains_key(k) ==> (t[k] matches Some(v) ==> v.s < seq)
}

/// An enqueue takes the next sequence number, and every number in the table stays below the one
/// that comes after it.
pub proof fn law_sequence_kept(
    t: Map<Seq<char>, Option<ValueView>>,
    mailbox: Seq<char>,
    evicted: Seq<EntryView>,
    id: u128,
    value: ValueView,
    seq: u64,
)
    requires
        numbers_below(t, seq),
        value.s == seq,
        seq < u64::MAX,
    ensures
        seq.wrapping_add(1) == seq + 1,
        numbers_below(
            table_after_enqueue(t, mailbox, evicted, id, value),
            seq.wrapping_add(1),
        ),
{
    let t2 = table_after_enqueue(t, mailbox, evicted, id, value);
    law_enqueue_commits(t, mailbox, evicted, id, value);
    assert forall|k: Seq<char>| #[trigger] t2.contains_key(k) implies (t2[k] matches Some(v) ==> v.s
        < seq.wrapping_add(1)) by {
        if k != queue_key(mailbox, id) {
            assert(t.contains_key(k));
        }
    }
}

/// A removal leaves every number in the table below the next.
pub proof fn law_sequence_kept_by_removal(
    t: Map<Seq<char>, Option<ValueView>>,
    keys: Seq<Seq<char>>,
    seq: u64,
)
    requires
        numbers_below(t, seq),
    ensures
        numbers_below(without(t, keys), seq),
{
    let t2 = without(t, keys);
    assert forall|k: Seq<char>| #[trigger] t2.contains_key(k) implies (t2[k] matches Some(v) ==> v.s
        < seq) by {
        assert(t.contains_key(k));
    }
}

/// The order survives a restart: a store that is opened over a table goes on past every number in
/// it.
pub proof fn law_sequence_after_open(rows: Seq<RowView>, t: Map<Seq<char>, Option<ValueView>>)
    requires
        lists(rows, t, any_key()),
        rows_max_seq(rows) < u64::MAX,
    ensures
        numbers_below(t, rows_max_seq(rows).saturating_add(1)),
{
    assert forall|k: Seq<char>| #[trigger] t.contains_key(k) implies (t[k] matches Some(v) ==> v.s
        < rows_max_seq(rows).saturating_add(1)) by {
        assert(any_key()(k));
        let i = choose|i: int| 0 <= i < rows.len() && (#[trigger] rows[i]).key == k;
        assert(t.contains_pair(rows[i].key, rows[i].value));
        lemma_max_seq(rows, i);
    }
}

/// A new envelope comes behind every one that is queued: what is read of a mailbox has only numbers
/// below the next.
pub proof fn law_next_number_is_last(
    rows: Seq<RowView>,
    t: Map<Seq<char>, Option<ValueView>>,
    mailbox: Seq<char>,
    seq: u64,
)
    requires
        !mailbox.contains(':'),
        canonical(t, mailbox),
        lists(rows, t, of_mailbox(mailbox)),
        numbers_below(t, seq),
    ensures
        forall|i: int|
            0 <= i < queue_of(rows).len() ==> (#[trigger] queue_of(rows)[i]).value.s < seq,
{
    let q = queue_of(rows);
    law_reads_what_is_stored(rows, t, mailbox);
    assert forall|i: int| 0 <= i < q.len() implies (#[trigger] q[i]).value.s < seq by {
        assert(q.contains(q[i]));
        assert(has_entry(t, mailbox, q[i]));
        assert(t.contains_key(queue_key(mailbox, q[i].id)));
    }
}

/// Every key that the store writes is that of an envelope: a table without rows has no other, and
/// an enqueue into any mailbox adds no other.
pub proof fn law_keys_stay_canonical(
    t: Map<Seq<char>, Option<ValueView>>,
    mailbox: Seq<char>,
    other: Seq<char>,
    evicted: Seq<EntryView>,
    id: u128,
    value: ValueView,
)
    requires
        !mailbox.contains(':'),
        !other.contains(':'),
    ensures
        canonical(Map::empty(), other),
        canonical(t, other) ==> canonical(
            table_after_enqueue(t, mailbox, evicted, id, value),
            other,
        ),
{
    if canonical(t, other) {
        let t2 = table_after_enqueue(t, mailbox, evicted, id, value);
        law_enqueue_commits(t, mailbox, evicted, id, value);
        law_key_roundtrip(mailbox, id);
        assert forall|x: Seq<char>| #[trigger]
            t2.contains_key(x) && of_mailbox(other)(x) implies is_queue_key(other, x) by {
            if x == queue_key(mailbox, id) {
                law_mailboxes_disjoint(x, mailbox, other);
            } else {
                assert(t.contains_key(x));
            }
        }
    }
}

/// A removal leaves only keys of envelopes.
pub proof fn law_keys_stay_canonical_by_removal(
    t: Map<Seq<char>, Option<ValueView>>,
    keys: Seq<Seq<char>>,
    mailbox: Seq<char>,
)
    requires
        canonical(t, mailbox),
    ensures
        canonical(without(t, keys), mailbox),
{
    let t2 = without(t, keys);
    assert forall|x: Seq<char>| #[trigger]
        t2.contains_key(x) && of_mailbox(mailbox)(x) implies is_queue_key(mailbox, x) by {
        assert(t.contains_key(x));
    }
}

/// A store with room for an envelope can count it, on a machine that can count the whole store.
pub proof fn law_room_is_countable(total: usize, incoming: usize)
    requires
        total.saturating_add(incoming) <= GLOBAL_QUEUE_DISK_CAP_BYTES,
        GLOBAL_QUEUE_DISK_CAP_BYTES < usize::MAX,
    ensures
        total + incoming <= usize::MAX,
{
}

} // verus!
