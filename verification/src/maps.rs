//! The concurrent maps that hold the hot state: what each holds, and the operations on it.

use crate::file_store::FileMeta;
use crate::state::{AuthView, BundleView, HostedBundle, MailboxAuth};
use crate::text::{byte_len, views};
use dashmap::DashMap;
use vstd::prelude::*;

verus! {

/// A concurrent hash map.
#[verifier::external_type_specification]
#[verifier::external_body]
#[verifier::reject_recursive_types(K)]
#[verifier::reject_recursive_types(V)]
#[verifier::reject_recursive_types(S)]
pub struct ExDashMap<K, V, S>(DashMap<K, V, S>);

// ---------------------------------------------------------------------------
// Transfers by identifier
// ---------------------------------------------------------------------------

/// The transfers that a map holds.
pub uninterp spec fn file_entries(m: DashMap<String, FileMeta>) -> Map<Seq<char>, FileMeta>;

/// `DashMap::new`: an empty map.
#[verifier::external_body]
pub(crate) fn files_new() -> (r: DashMap<String, FileMeta>)
    ensures
        file_entries(r).dom() == Set::<Seq<char>>::empty(),
{
    DashMap::new()
}

/// `DashMap::get`, with the value copied out.
#[verifier::external_body]
pub(crate) fn files_get(m: &DashMap<String, FileMeta>, id: &str) -> (r: Option<FileMeta>)
    ensures
        r == (if file_entries(*m).contains_key(id@) {
            Some(file_entries(*m)[id@])
        } else {
            None
        }),
{
    m.get(id).map(|e| *e.value())
}

/// `DashMap::insert`: puts the value under the key, in place of any other.
#[verifier::external_body]
pub(crate) fn files_insert(m: &mut DashMap<String, FileMeta>, id: String, meta: FileMeta)
    ensures
        file_entries(*final(m)) == file_entries(*old(m)).insert(id@, meta),
{
    m.insert(id, meta);
}

/// `DashMap::remove`: takes the key out.
#[verifier::external_body]
pub(crate) fn files_remove(m: &mut DashMap<String, FileMeta>, id: &str)
    ensures
        file_entries(*final(m)) == file_entries(*old(m)).remove(id@),
{
    m.remove(id);
}

/// `DashMap::iter`: every entry once, in an order that is not stated.
#[verifier::external_body]
pub(crate) fn files_list(m: &DashMap<String, FileMeta>) -> (r: Vec<(String, FileMeta)>)
    ensures
        forall|i: int|
            0 <= i < r@.len() ==> file_entries(*m).contains_pair((#[trigger] r@[i]).0@, r@[i].1),
        forall|k: Seq<char>| #[trigger]
            file_entries(*m).contains_key(k) ==> exists|i: int|
                0 <= i < r@.len() && (#[trigger] r@[i]).0@ == k,
        forall|i: int, j: int|
            0 <= i < j < r@.len() ==> (#[trigger] r@[i]).0@ != (#[trigger] r@[j]).0@,
{
    m.iter().map(|e| (e.key().clone(), *e.value())).collect()
}

// ---------------------------------------------------------------------------
// Mailbox records by mailbox
// ---------------------------------------------------------------------------

/// The mailbox records that a map holds.
pub uninterp spec fn auth_entries(m: DashMap<String, MailboxAuth>) -> Map<Seq<char>, AuthView>;

/// `DashMap::new`: an empty map.
#[verifier::external_body]
pub(crate) fn auth_new() -> (r: DashMap<String, MailboxAuth>)
    ensures
        auth_entries(r).dom() == Set::<Seq<char>>::empty(),
{
    DashMap::new()
}

/// `DashMap::get`, with the value copied out.
#[verifier::external_body]
pub(crate) fn auth_get(m: &DashMap<String, MailboxAuth>, rid: &str) -> (r: Option<MailboxAuth>)
    ensures
        r is Some <==> auth_entries(*m).contains_key(rid@),
        r matches Some(a) ==> a@ == auth_entries(*m)[rid@],
{
    m.get(rid).map(|e| e.value().duplicate())
}

/// `DashMap::insert`: puts the value under the key, in place of any other.
#[verifier::external_body]
pub(crate) fn auth_insert(m: &mut DashMap<String, MailboxAuth>, rid: String, auth: MailboxAuth)
    ensures
        auth_entries(*final(m)) == auth_entries(*old(m)).insert(rid@, auth@),
{
    m.insert(rid, auth);
}

/// `DashMap::remove`: takes the key out and says whether it was there.
#[verifier::external_body]
pub(crate) fn auth_remove(m: &mut DashMap<String, MailboxAuth>, rid: &str) -> (r: bool)
    ensures
        r == auth_entries(*old(m)).contains_key(rid@),
        auth_entries(*final(m)) == auth_entries(*old(m)).remove(rid@),
{
    m.remove(rid).is_some()
}

/// `DashMap::len`: the number of keys.
#[verifier::external_body]
pub(crate) fn auth_len(m: &DashMap<String, MailboxAuth>) -> (r: usize)
    ensures
        r == auth_entries(*m).dom().len(),
{
    m.len()
}

/// `DashMap::iter`: every key once with the last activity of its mailbox, in an order that is not
/// stated.
#[verifier::external_body]
pub(crate) fn auth_list(m: &DashMap<String, MailboxAuth>) -> (r: Vec<(String, u64)>)
    ensures
        forall|i: int|
            0 <= i < r@.len() ==> auth_entries(*m).contains_key((#[trigger] r@[i]).0@)
                && auth_entries(*m)[r@[i].0@].last_active == r@[i].1,
        forall|k: Seq<char>| #[trigger]
            auth_entries(*m).contains_key(k) ==> exists|i: int|
                0 <= i < r@.len() && (#[trigger] r@[i]).0@ == k,
        forall|i: int, j: int|
            0 <= i < j < r@.len() ==> (#[trigger] r@[i]).0@ != (#[trigger] r@[j]).0@,
{
    m.iter().map(|e| (e.key().clone(), e.value().last_active_ms)).collect()
}

// ---------------------------------------------------------------------------
// Invite bundles by identifier
// ---------------------------------------------------------------------------

/// The invite bundles that a map holds.
pub uninterp spec fn bundle_entries(m: DashMap<String, HostedBundle>) -> Map<Seq<char>, BundleView>;

/// `DashMap::new`: an empty map.
#[verifier::external_body]
pub(crate) fn bundles_new() -> (r: DashMap<String, HostedBundle>)
    ensures
        bundle_entries(r).dom() == Set::<Seq<char>>::empty(),
{
    DashMap::new()
}

/// `DashMap::get`, with the value copied out.
#[verifier::external_body]
pub(crate) fn bundles_get(m: &DashMap<String, HostedBundle>, id: &str) -> (r: Option<HostedBundle>)
    ensures
        r is Some <==> bundle_entries(*m).contains_key(id@),
        r matches Some(b) ==> b@ == bundle_entries(*m)[id@],
{
    m.get(id).map(|e| e.value().duplicate())
}

/// `DashMap::insert`: puts the value under the key, in place of any other, which is handed back.
#[verifier::external_body]
pub(crate) fn bundles_insert(
    m: &mut DashMap<String, HostedBundle>,
    id: String,
    bundle: HostedBundle,
) -> (r: Option<HostedBundle>)
    ensures
        r is Some <==> bundle_entries(*old(m)).contains_key(id@),
        r matches Some(b) ==> b@ == bundle_entries(*old(m))[id@],
        bundle_entries(*final(m)) == bundle_entries(*old(m)).insert(id@, bundle@),
{
    m.insert(id, bundle)
}

/// `DashMap::remove`: takes the key out.
#[verifier::external_body]
pub(crate) fn bundles_remove(m: &mut DashMap<String, HostedBundle>, id: &str)
    ensures
        bundle_entries(*final(m)) == bundle_entries(*old(m)).remove(id@),
{
    m.remove(id);
}

/// `DashMap::len`: the number of keys.
#[verifier::external_body]
pub(crate) fn bundles_len(m: &DashMap<String, HostedBundle>) -> (r: usize)
    ensures
        r == bundle_entries(*m).dom().len(),
{
    m.len()
}

/// `DashMap::iter`: every key once with the expiry and the ciphertext length of its bundle, in an
/// order that is not stated.
#[verifier::external_body]
pub(crate) fn bundles_list(m: &DashMap<String, HostedBundle>) -> (r: Vec<(String, u64, usize)>)
    ensures
        forall|i: int|
            0 <= i < r@.len() ==> bundle_entries(*m).contains_key((#[trigger] r@[i]).0@)
                && bundle_entries(*m)[r@[i].0@].expires_at_ms == r@[i].1 && byte_len(
                bundle_entries(*m)[r@[i].0@].ciphertext,
            ) == r@[i].2,
        forall|k: Seq<char>| #[trigger]
            bundle_entries(*m).contains_key(k) ==> exists|i: int|
                0 <= i < r@.len() && (#[trigger] r@[i]).0@ == k,
        forall|i: int, j: int|
            0 <= i < j < r@.len() ==> (#[trigger] r@[i]).0@ != (#[trigger] r@[j]).0@,
{
    m.iter().map(|e| (e.key().clone(), e.value().expires_at_ms, e.value().ciphertext.len())).collect()
}

// ---------------------------------------------------------------------------
// Send rates by destination
// ---------------------------------------------------------------------------

/// The rate windows that a map holds: when each began and how many sends it has counted.
pub uninterp spec fn rate_entries(m: DashMap<String, (u64, u32)>) -> Map<Seq<char>, (u64, u32)>;

/// `DashMap::new`: an empty map.
#[verifier::external_body]
pub(crate) fn rate_new() -> (r: DashMap<String, (u64, u32)>)
    ensures
        rate_entries(r).dom() == Set::<Seq<char>>::empty(),
{
    DashMap::new()
}

/// `DashMap::get`, with the value copied out.
#[verifier::external_body]
pub(crate) fn rate_get(m: &DashMap<String, (u64, u32)>, to: &str) -> (r: Option<(u64, u32)>)
    ensures
        r == (if rate_entries(*m).contains_key(to@) {
            Some(rate_entries(*m)[to@])
        } else {
            None
        }),
{
    m.get(to).map(|e| *e.value())
}

/// `DashMap::insert`: puts the value under the key, in place of any other.
#[verifier::external_body]
pub(crate) fn rate_insert(m: &mut DashMap<String, (u64, u32)>, to: String, window: (u64, u32))
    ensures
        rate_entries(*final(m)) == rate_entries(*old(m)).insert(to@, window),
{
    m.insert(to, window);
}

/// `DashMap::remove`: takes the key out.
#[verifier::external_body]
pub(crate) fn rate_remove(m: &mut DashMap<String, (u64, u32)>, to: &str)
    ensures
        rate_entries(*final(m)) == rate_entries(*old(m)).remove(to@),
{
    m.remove(to);
}

// ---------------------------------------------------------------------------
// Live connections by mailbox
// ---------------------------------------------------------------------------

/// The connections that a map holds, by the number of each.
pub uninterp spec fn online_entries(m: DashMap<String, u64>) -> Map<Seq<char>, u64>;

/// `DashMap::new`: an empty map.
#[verifier::external_body]
pub(crate) fn online_new() -> (r: DashMap<String, u64>)
    ensures
        online_entries(r).dom() == Set::<Seq<char>>::empty(),
{
    DashMap::new()
}

/// `DashMap::get`, with the value copied out.
#[verifier::external_body]
pub(crate) fn online_get(m: &DashMap<String, u64>, rid: &str) -> (r: Option<u64>)
    ensures
        r == (if online_entries(*m).contains_key(rid@) {
            Some(online_entries(*m)[rid@])
        } else {
            None
        }),
{
    m.get(rid).map(|e| *e.value())
}

/// `DashMap::insert`: puts the value under the key, in place of any other.
#[verifier::external_body]
pub(crate) fn online_insert(m: &mut DashMap<String, u64>, rid: String, conn: u64)
    ensures
        online_entries(*final(m)) == online_entries(*old(m)).insert(rid@, conn),
{
    m.insert(rid, conn);
}

/// `DashMap::remove`: takes the key out.
#[verifier::external_body]
pub(crate) fn online_remove(m: &mut DashMap<String, u64>, rid: &str)
    ensures
        online_entries(*final(m)) == online_entries(*old(m)).remove(rid@),
{
    m.remove(rid);
}

// ---------------------------------------------------------------------------
// Changed keys
// ---------------------------------------------------------------------------

/// The keys that a set holds.
pub uninterp spec fn dirty_entries(m: DashMap<String, ()>) -> Set<Seq<char>>;

/// `DashMap::new`: an empty set.
#[verifier::external_body]
pub(crate) fn dirty_new() -> (r: DashMap<String, ()>)
    ensures
        dirty_entries(r) == Set::<Seq<char>>::empty(),
{
    DashMap::new()
}

/// `DashMap::insert`: puts the key in.
#[verifier::external_body]
pub(crate) fn dirty_insert(m: &mut DashMap<String, ()>, key: String)
    ensures
        dirty_entries(*final(m)) == dirty_entries(*old(m)).insert(key@),
{
    m.insert(key, ());
}

/// `DashMap::remove`: takes the key out.
#[verifier::external_body]
pub(crate) fn dirty_remove(m: &mut DashMap<String, ()>, key: &str)
    ensures
        dirty_entries(*final(m)) == dirty_entries(*old(m)).remove(key@),
{
    m.remove(key);
}

/// `DashMap::iter`: every key once, in an order that is not stated.
#[verifier::external_body]
pub(crate) fn dirty_list(m: &DashMap<String, ()>) -> (r: Vec<String>)
    ensures
        views(r@).no_duplicates(),
        views(r@).to_set() == dirty_entries(*m),
{
    m.iter().map(|e| e.key().clone()).collect()
}

/// `DashMap::is_empty`: whether there is no key.
#[verifier::external_body]
pub(crate) fn dirty_is_empty(m: &DashMap<String, ()>) -> (r: bool)
    ensures
        r == (dirty_entries(*m) == Set::<Seq<char>>::empty()),
{
    m.is_empty()
}

} // verus!
