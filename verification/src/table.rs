//! The model of a durable table with text keys: key order, key ranges and batches of writes.

use crate::text::views;
use vstd::prelude::*;

verus! {

/// One change to a durable table.
pub enum RowWrite<T> {
    Put { key: String, value: T },
    Remove { key: String },
}

/// The model of a [`RowWrite`].
pub enum WriteView<T> {
    Put { key: Seq<char>, value: T },
    Remove { key: Seq<char> },
}

impl<T: View> View for RowWrite<T> {
    type V = WriteView<T::V>;

    open spec fn view(&self) -> WriteView<T::V> {
        match *self {
            RowWrite::Put { key, value } => WriteView::Put { key: key@, value: value@ },
            RowWrite::Remove { key } => WriteView::Remove { key: key@ },
        }
    }
}

/// The models of a batch of writes.
pub open spec fn write_views<T: View>(ws: Seq<RowWrite<T>>) -> Seq<WriteView<T::V>> {
    Seq::new(ws.len(), |i: int| ws[i]@)
}

/// The keys that a batch writes.
pub open spec fn write_keys<T>(ws: Seq<WriteView<T>>) -> Seq<Seq<char>> {
    Seq::new(
        ws.len(),
        |i: int|
            match ws[i] {
                WriteView::Put { key, .. } => key,
                WriteView::Remove { key } => key,
            },
    )
}

/// The keys that a batch writes.
pub fn keys_written<T: View>(ws: &Vec<RowWrite<T>>) -> (r: Vec<String>)
    ensures
        views(r@) == write_keys(write_views(ws@)),
{
    let mut out: Vec<String> = Vec::new();
    let mut i: usize = 0;
    while i < ws.len()
        invariant
            i <= ws@.len(),
            out@.len() == i,
            forall|j: int|
                0 <= j < i ==> (#[trigger] out@[j])@ == write_keys(write_views(ws@))[j],
        decreases ws@.len() - i,
    {
        let key: String = match &ws[i] {
            RowWrite::Put { key, .. } => key.clone(),
            RowWrite::Remove { key } => key.clone(),
        };
        proof {
            assert(write_views(ws@)[i as int] == ws@[i as int]@);
        }
        out.push(key);
        i += 1;
    }
    proof {
        assert(views(out@) =~= write_keys(write_views(ws@)));
    }
    out
}

/// A table after one write.
pub open spec fn apply_write<T>(t: Map<Seq<char>, T>, w: WriteView<T>) -> Map<Seq<char>, T> {
    match w {
        WriteView::Put { key, value } => t.insert(key, value),
        WriteView::Remove { key } => t.remove(key),
    }
}

/// A table after a batch of writes, in order.
pub open spec fn applied<T>(t: Map<Seq<char>, T>, ws: Seq<WriteView<T>>) -> Map<Seq<char>, T>
    decreases ws.len(),
{
    if ws.len() == 0 {
        t
    } else {
        apply_write(applied(t, ws.drop_last()), ws.last())
    }
}

/// A table without some of its keys.
pub open spec fn without<T>(t: Map<Seq<char>, T>, keys: Seq<Seq<char>>) -> Map<Seq<char>, T> {
    t.remove_keys(keys.to_set())
}

/// Whether `a` comes before `b` in the order of the keys: character by character, a shorter text
/// before every text that it begins.
pub open spec fn key_before(a: Seq<char>, b: Seq<char>) -> bool
    decreases a.len(),
{
    if b.len() == 0 {
        false
    } else if a.len() == 0 {
        true
    } else if a[0] != b[0] {
        a[0] < b[0]
    } else {
        key_before(a.drop_first(), b.drop_first())
    }
}

/// Whether a key lies in the half-open range from `lo` to `hi`.
pub open spec fn in_range(k: Seq<char>, lo: Seq<char>, hi: Seq<char>) -> bool {
    !key_before(k, lo) && key_before(k, hi)
}

/// The bounds of the half-open range of keys that belong to `owner`.
pub open spec fn owner_range(owner: Seq<char>) -> (Seq<char>, Seq<char>) {
    (owner.push(':'), owner.push(';'))
}

/// Whether a key is made of `owner`, a colon and anything.
pub open spec fn owned_by(k: Seq<char>, owner: Seq<char>) -> bool {
    k.len() > owner.len() && k.take(owner.len() as int) == owner && k[owner.len() as int] == ':'
}

/// The range from `owner:` to `owner;` holds exactly the keys made of `owner`, a colon and anything.
pub proof fn law_range_selects_owner(k: Seq<char>, owner: Seq<char>)
    ensures
        in_range(k, owner.push(':'), owner.push(';')) <==> owned_by(k, owner),
    decreases owner.len(),
{
    let lo = owner.push(':');
    let hi = owner.push(';');
    if owner.len() == 0 {
        assert(lo.drop_first() =~= Seq::<char>::empty());
        assert(hi.drop_first() =~= Seq::<char>::empty());
        assert(k.take(0) =~= owner);
        if k.len() > 0 {
            assert(!key_before(k.drop_first(), lo.drop_first()));
            assert(!key_before(k.drop_first(), hi.drop_first()));
        }
    } else {
        assert(lo.drop_first() =~= owner.drop_first().push(':'));
        assert(hi.drop_first() =~= owner.drop_first().push(';'));
        assert(lo[0] == owner[0] && hi[0] == owner[0]);
        if k.len() > 0 && k[0] == owner[0] {
            law_range_selects_owner(k.drop_first(), owner.drop_first());
            let n = owner.len() as int;
            if k.len() > n {
                assert(k.drop_first().take(n - 1) =~= k.take(n).drop_first());
                assert(k.drop_first()[n - 1] == k[n]);
                if k.take(n).drop_first() == owner.drop_first() {
                    assert(k.take(n)[0] == owner[0]);
                    assert(k.take(n) =~= owner) by {
                        assert forall|i: int| 0 <= i < n implies k.take(n)[i] == owner[i] by {
                            if i > 0 {
                                assert(k.take(n).drop_first()[i - 1] == owner.drop_first()[i - 1]);
                            }
                        }
                    }
                }
            }
        } else if k.len() > owner.len() {
            assert(k.take(owner.len() as int)[0] == k[0]);
        }
    }
}

/// Owners without a colon share no key.
pub proof fn law_owners_are_disjoint(k: Seq<char>, a: Seq<char>, b: Seq<char>)
    requires
        !a.contains(':'),
        !b.contains(':'),
        owned_by(k, a),
        owned_by(k, b),
    ensures
        a == b,
{
    if a.len() < b.len() {
        assert(b[a.len() as int] == k.take(b.len() as int)[a.len() as int]);
    } else if b.len() < a.len() {
        assert(a[b.len() as int] == k.take(a.len() as int)[b.len() as int]);
    }
}

/// The order of the keys is a strict total order.
pub proof fn law_key_order(a: Seq<char>, b: Seq<char>, c: Seq<char>)
    ensures
        !key_before(a, a),
        key_before(a, b) ==> !key_before(b, a),
        a == b || key_before(a, b) || key_before(b, a),
        key_before(a, b) && key_before(b, c) ==> key_before(a, c),
    decreases a.len(),
{
    if a.len() > 0 {
        let (x, y, z) = (
            a.drop_first(),
            if b.len() > 0 {
                b.drop_first()
            } else {
                b
            },
            if c.len() > 0 {
                c.drop_first()
            } else {
                c
            },
        );
        law_key_order(x, y, z);
        if b.len() > 0 && a[0] == b[0] && x == y {
            assert(a =~= seq![a[0]] + x);
            assert(b =~= seq![b[0]] + y);
        }
    } else if b.len() == 0 {
        assert(a =~= b);
    }
}

/// The sum of a weight over the values of a table.
pub open spec fn total_of<K, T>(t: Map<K, T>, weight: spec_fn(T) -> nat) -> nat
    decreases t.dom().len(),
    when t.dom().finite()
{
    if t.dom().len() == 0 {
        0
    } else {
        let k = t.dom().choose();
        weight(t[k]) + total_of(t.remove(k), weight)
    }
}

/// The sum over a table is the weight under one key and the sum over the rest.
pub proof fn lemma_total_remove<K, T>(t: Map<K, T>, weight: spec_fn(T) -> nat, k: K)
    requires
        t.dom().finite(),
        t.contains_key(k),
    ensures
        total_of(t, weight) == weight(t[k]) + total_of(t.remove(k), weight),
    decreases t.dom().len(),
{
    let c = t.dom().choose();
    assert(t.dom().len() > 0) by {
        if t.dom().len() == 0 {
            assert(t.dom() =~= Set::empty());
        }
    }
    assert(t.dom().contains(c));
    if c != k {
        lemma_total_remove(t.remove(c), weight, k);
        lemma_total_remove(t.remove(k), weight, c);
        assert(t.remove(c).remove(k) =~= t.remove(k).remove(c));
    }
}

/// A new key adds its weight.
pub proof fn lemma_total_insert<K, T>(
    t: Map<K, T>,
    weight: spec_fn(T) -> nat,
    k: K,
    v: T,
)
    requires
        t.dom().finite(),
        !t.contains_key(k),
    ensures
        t.insert(k, v).dom().finite(),
        total_of(t.insert(k, v), weight) == weight(v) + total_of(t, weight),
{
    lemma_total_remove(t.insert(k, v), weight, k);
    assert(t.insert(k, v).remove(k) =~= t);
}

/// The writes that remove keys.
pub open spec fn removals<T>(keys: Seq<Seq<char>>) -> Seq<WriteView<T>> {
    Seq::new(keys.len(), |i: int| WriteView::Remove { key: keys[i] })
}

/// Removing keys one by one leaves the table without them.
pub proof fn lemma_applied_removals<T>(t: Map<Seq<char>, T>, keys: Seq<Seq<char>>)
    ensures
        applied(t, removals::<T>(keys)) == without(t, keys),
    decreases keys.len(),
{
    if keys.len() == 0 {
        assert(without(t, keys) =~= t);
    } else {
        let ks = keys.drop_last();
        assert(removals::<T>(keys).drop_last() =~= removals::<T>(ks));
        lemma_applied_removals(t, ks);
        assert(keys =~= ks.push(keys.last()));
        assert forall|k: Seq<char>| keys.to_set().contains(k) <==> ks.to_set().contains(k) || k
            == keys.last() by {
            if ks.contains(k) {
                let i = choose|i: int| 0 <= i < ks.len() && ks[i] == k;
                assert(keys[i] == k);
            }
            assert(keys[keys.len() - 1] == keys.last());
            if keys.contains(k) && k != keys.last() {
                let i = choose|i: int| 0 <= i < keys.len() && keys[i] == k;
                assert(ks[i] == k);
            }
        }
        assert(without(t, keys) =~= without(t, ks).remove(keys.last()));
    }
}

} // verus!
