//! Durable mailbox records and invite bundles.
//!
//! The live maps are authoritative; the two durable tables are written back to from the dirty sets,
//! one small write for each changed key, and are read once at startup.

use crate::protocol::RecipientId;
use crate::state::{batch_keys, AuthView, BundleView, HostedBundle, MailboxAuth};
use crate::table::{applied, write_views, RowWrite, WriteView};
use vstd::prelude::*;

verus! {

/// A row of the table of mailbox records; `None` where its bytes do not decode.
#[derive(Debug, Clone, PartialEq, Eq)]
pub struct AuthRow {
    pub key: RecipientId,
    pub value: Option<MailboxAuth>,
}

/// A row of the table of invite bundles; `None` where its bytes do not decode.
#[derive(Debug, Clone, PartialEq, Eq)]
pub struct BundleRow {
    pub key: String,
    pub value: Option<HostedBundle>,
}

/// The models of mailbox records with their keys.
pub open spec fn auth_pairs(v: Seq<(RecipientId, MailboxAuth)>) -> Seq<(Seq<char>, AuthView)> {
    Seq::new(v.len(), |i: int| (v[i].0@, v[i].1@))
}

/// The models of bundles.
pub open spec fn bundle_views(v: Seq<HostedBundle>) -> Seq<BundleView> {
    Seq::new(v.len(), |i: int| v[i]@)
}

/// The records of the rows that decode, in their order.
pub open spec fn decoded_auth(rows: Seq<AuthRow>) -> Seq<(Seq<char>, AuthView)>
    decreases rows.len(),
{
    if rows.len() == 0 {
        Seq::empty()
    } else {
        let before = decoded_auth(rows.drop_last());
        match rows.last().value {
            Some(a) => before.push((rows.last().key@, a@)),
            None => before,
        }
    }
}

/// The bundles of the rows that decode, in their order.
pub open spec fn decoded_bundles(rows: Seq<BundleRow>) -> Seq<BundleView>
    decreases rows.len(),
{
    if rows.len() == 0 {
        Seq::empty()
    } else {
        let before = decoded_bundles(rows.drop_last());
        match rows.last().value {
            Some(b) => before.push(b@),
            None => before,
        }
    }
}

/// The write for a key: its value, or its removal.
pub open spec fn write_of<T>(key: Seq<char>, value: Option<T>) -> WriteView<T> {
    match value {
        Some(value) => WriteView::Put { key, value },
        None => WriteView::Remove { key },
    }
}

/// The models of the values of a batch.
pub open spec fn batch_values<T: View>(batch: Seq<(String, Option<T>)>) -> Seq<Option<T::V>> {
    Seq::new(
        batch.len(),
        |i: int|
            match batch[i].1 {
                Some(v) => Some(v@),
                None => None,
            },
    )
}

/// The writes of a batch.
pub open spec fn batch_writes<T>(keys: Seq<Seq<char>>, values: Seq<Option<T>>) -> Seq<WriteView<T>> {
    Seq::new(keys.len(), |i: int| write_of(keys[i], values[i]))
}

/// The durable tables of mailbox records and invite bundles.
pub struct MetaStore;

impl MetaStore {
    /// The mailbox records in the table; rows that do not decode are passed over.
    pub fn load_all_auth(rows: Vec<AuthRow>) -> (r: Vec<(RecipientId, MailboxAuth)>)
        ensures
            auth_pairs(r@) == decoded_auth(rows@),
    {
        let ghost all = rows@;
        let mut out: Vec<(RecipientId, MailboxAuth)> = Vec::new();
        proof {
            assert(auth_pairs(out@) =~= decoded_auth(all.take(0)));
        }
        for row in it: rows
            invariant
                it.seq() == all,
                auth_pairs(out@) == decoded_auth(all.take(it.index() as int)),
        {
            let ghost i = it.index() as int;
            proof {
                assert(all.take(i + 1).drop_last() =~= all.take(i));
                assert(all.take(i + 1).last() == row);
            }
            if let Some(auth) = row.value {
                let ghost before = out@;
                let ghost pair = (row.key@, auth@);
                out.push((row.key, auth));
                proof {
                    assert(auth_pairs(out@) =~= auth_pairs(before).push(pair));
                }
            }
        }
        proof {
            assert(all.take(all.len() as int) =~= all);
        }
        out
    }

    /// The invite bundles in the table; rows that do not decode are passed over.
    pub fn load_all_bundles(rows: Vec<BundleRow>) -> (r: Vec<HostedBundle>)
        ensures
            bundle_views(r@) == decoded_bundles(rows@),
    {
        let ghost all = rows@;
        let mut out: Vec<HostedBundle> = Vec::new();
        proof {
            assert(bundle_views(out@) =~= decoded_bundles(all.take(0)));
        }
        for row in it: rows
            invariant
                it.seq() == all,
                bundle_views(out@) == decoded_bundles(all.take(it.index() as int)),
        {
            let ghost i = it.index() as int;
            proof {
                assert(all.take(i + 1).drop_last() =~= all.take(i));
                assert(all.take(i + 1).last() == row);
            }
            if let Some(bundle) = row.value {
                let ghost before = out@;
                let ghost view = bundle@;
                out.push(bundle);
                proof {
                    assert(bundle_views(out@) =~= bundle_views(before).push(view));
                }
            }
        }
        proof {
            assert(all.take(all.len() as int) =~= all);
        }
        out
    }

    /// Whether the table of mailbox records has no row.
    pub fn auth_is_empty(rows: &Vec<AuthRow>) -> (r: bool)
        ensures
            r == (rows@.len() == 0),
    {
        rows.len() == 0
    }

    /// Whether the table of invite bundles has no row.
    pub fn bundles_is_empty(rows: &Vec<BundleRow>) -> (r: bool)
        ensures
            r == (rows@.len() == 0),
    {
        rows.len() == 0
    }

    /// The writes that bring the table of mailbox records up to date, for one transaction.
    pub fn flush_auth(items: Vec<(RecipientId, Option<MailboxAuth>)>) -> (r: Vec<
        RowWrite<MailboxAuth>,
    >)
        ensures
            write_views(r@) == batch_writes(batch_keys(items@), batch_values(items@)),
    {
        flush_batch(items)
    }

    /// The writes that bring the table of invite bundles up to date, for one transaction.
    pub fn flush_bundles(items: Vec<(String, Option<HostedBundle>)>) -> (r: Vec<
        RowWrite<HostedBundle>,
    >)
        ensures
            write_views(r@) == batch_writes(batch_keys(items@), batch_values(items@)),
    {
        flush_batch(items)
    }
}

/// A write for each key of a batch.
fn flush_batch<T: View>(items: Vec<(String, Option<T>)>) -> (r: Vec<RowWrite<T>>)
    ensures
        write_views(r@) == batch_writes(batch_keys(items@), batch_values(items@)),
{
    let ghost all = items@;
    let ghost ws = batch_writes(batch_keys(all), batch_values(all));
    let mut out: Vec<RowWrite<T>> = Vec::new();
    for item in it: items
        invariant
            it.seq() == all,
            ws == batch_writes(batch_keys(all), batch_values(all)),
            out@.len() == it.index(),
            forall|j: int| 0 <= j < out@.len() ==> (#[trigger] out@[j])@ == ws[j],
    {
        let ghost i = it.index() as int;
        proof {
            assert(item == all[i]);
        }
        let (key, value) = item;
        match value {
            Some(value) => {
                out.push(RowWrite::Put { key, value });
            },
            None => {
                out.push(RowWrite::Remove { key });
            },
        }
    }
    proof {
        assert(write_views(out@) =~= ws);
    }
    out
}

/// What a table holds after a batch with distinct keys: under each key of the batch what the batch
/// says, and under every other key what it held.
pub proof fn law_batch_applies<T>(
    t: Map<Seq<char>, T>,
    keys: Seq<Seq<char>>,
    values: Seq<Option<T>>,
    k: Seq<char>,
)
    requires
        keys.len() == values.len(),
        keys.no_duplicates(),
    ensures
        ({
            let after = applied(t, batch_writes(keys, values));
            &&& !keys.contains(k) ==> after.contains_key(k) == t.contains_key(k) && (t.contains_key(k)
                ==> after[k] == t[k])
            &&& forall|i: int|
                0 <= i < keys.len() && #[trigger] keys[i] == k ==> match values[i] {
                    Some(v) => after.contains_key(k) && after[k] == v,
                    None => !after.contains_key(k),
                }
        }),
    decreases keys.len(),
{
    let ws = batch_writes(keys, values);
    if keys.len() > 0 {
        let (ks, vs) = (keys.drop_last(), values.drop_last());
        let n = keys.len() - 1;
        law_batch_applies(t, ks, vs, k);
        assert(ws.drop_last() =~= batch_writes(ks, vs));
        if keys[n] == k {
            assert forall|i: int| 0 <= i < keys.len() && #[trigger] keys[i] == k implies i == n by {}
        } else {
            if !keys.contains(k) {
                assert forall|i: int| 0 <= i < ks.len() implies ks[i] != k by {
                    assert(keys[i] != k);
                }
            }
            assert forall|i: int| 0 <= i < keys.len() && #[trigger] keys[i] == k implies ks[i] == k
                && vs[i] == values[i] by {}
        }
    }
}

/// Whether a table holds what the live map does, outside the dirty keys.
pub open spec fn in_step<T>(
    t: Map<Seq<char>, T>,
    live: Map<Seq<char>, T>,
    dirty: Set<Seq<char>>,
) -> bool {
    forall|k: Seq<char>|
        !dirty.contains(k) ==> (#[trigger] t.contains_key(k) <==> live.contains_key(k)) && (
        t.contains_key(k) ==> t[k] == live[k])
}

/// Writing back every dirty key with its current value loses nothing: the table then holds exactly
/// what the live map does.
pub proof fn law_flush_catches_up<T>(
    t: Map<Seq<char>, T>,
    live: Map<Seq<char>, T>,
    keys: Seq<Seq<char>>,
    values: Seq<Option<T>>,
)
    requires
        keys.len() == values.len(),
        keys.no_duplicates(),
        in_step(t, live, keys.to_set()),
        forall|i: int|
            0 <= i < keys.len() ==> match #[trigger] values[i] {
                Some(v) => live.contains_key(keys[i]) && v == live[keys[i]],
                None => !live.contains_key(keys[i]),
            },
    ensures
        applied(t, batch_writes(keys, values)) == live,
{
    let after = applied(t, batch_writes(keys, values));
    assert forall|k: Seq<char>| #[trigger] after.contains_key(k) <==> live.contains_key(k) by {
        law_batch_applies(t, keys, values, k);
        if keys.contains(k) {
            let i = choose|i: int| 0 <= i < keys.len() && keys[i] == k;
            let v = values[i];
        } else {
            assert(!keys.to_set().contains(k));
            assert(t.contains_key(k) <==> live.contains_key(k));
        }
    }
    assert forall|k: Seq<char>| #[trigger] after.contains_key(k) implies after[k] == live[k] by {
        law_batch_applies(t, keys, values, k);
        if keys.contains(k) {
            let i = choose|i: int| 0 <= i < keys.len() && keys[i] == k;
            let v = values[i];
        } else {
            assert(!keys.to_set().contains(k));
            assert(t.contains_key(k));
        }
    }
    assert(after =~= live);
}

/// A flush that failed loses nothing: a table that was in step outside the keys of the flush is in
/// step with the live map of any later time, outside these keys and those that changed since.
pub proof fn law_failed_flush_loses_nothing<T>(
    t: Map<Seq<char>, T>,
    live: Map<Seq<char>, T>,
    flushed: Set<Seq<char>>,
    later: Map<Seq<char>, T>,
    changed: Set<Seq<char>>,
)
    requires
        in_step(t, live, flushed),
        in_step(live, later, changed),
    ensures
        in_step(t, later, changed.union(flushed)),
{
    assert forall|k: Seq<char>| !changed.union(flushed).contains(k) implies (
    #[trigger] t.contains_key(k) <==> later.contains_key(k)) && (t.contains_key(k) ==> t[k]
        == later[k]) by {
        assert(live.contains_key(k) <==> later.contains_key(k));
    }
}

} // verus!
