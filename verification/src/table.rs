//! Tables keyed by text, and lists of distinct texts, kept in vectors in
//! the order in which their keys first arrived.

use vstd::prelude::*;

verus! {

/// The index of the last entry of `entries` whose key is `k`, or -1.
pub open spec fn key_index<V>(entries: Seq<(Seq<char>, V)>, k: Seq<char>) -> int
    decreases entries.len(),
{
    if entries.len() == 0 {
        -1
    } else if entries.last().0 == k {
        entries.len() - 1
    } else {
        key_index(entries.drop_last(), k)
    }
}

/// The value that `entries` gives key `k`, if any.
pub open spec fn lookup<V>(entries: Seq<(Seq<char>, V)>, k: Seq<char>) -> Option<V> {
    let i = key_index(entries, k);
    if i < 0 {
        None
    } else {
        Some(entries[i].1)
    }
}

/// `entries` after `k` is given value `v`: an entry with key `k` has its
/// value replaced where it stays; otherwise the entry is added at the end.
pub open spec fn inserted<V>(entries: Seq<(Seq<char>, V)>, k: Seq<char>, v: V) -> Seq<
    (Seq<char>, V),
> {
    let i = key_index(entries, k);
    if i < 0 {
        entries.push((k, v))
    } else {
        entries.update(i, (k, v))
    }
}

/// `entries` after each row of `rows` is inserted in turn.
pub open spec fn inserted_all<V>(entries: Seq<(Seq<char>, V)>, rows: Seq<(Seq<char>, V)>) -> Seq<
    (Seq<char>, V),
>
    decreases rows.len(),
{
    if rows.len() == 0 {
        entries
    } else {
        inserted(inserted_all(entries, rows.drop_last()), rows.last().0, rows.last().1)
    }
}

/// No two entries of `entries` have the same key.
pub open spec fn distinct_keys<V>(entries: Seq<(Seq<char>, V)>) -> bool {
    forall|i: int, j: int|
        0 <= i < entries.len() && 0 <= j < entries.len() && i != j ==> entries[i].0
            != entries[j].0
}

/// `items` with `x` added at the end, unless it is there already.
pub open spec fn added(items: Seq<Seq<char>>, x: Seq<char>) -> Seq<Seq<char>> {
    if items.contains(x) {
        items
    } else {
        items.push(x)
    }
}

/// `items` with each of `xs` added in turn.
pub open spec fn added_all(items: Seq<Seq<char>>, xs: Seq<Seq<char>>) -> Seq<Seq<char>>
    decreases xs.len(),
{
    if xs.len() == 0 {
        items
    } else {
        added(added_all(items, xs.drop_last()), xs.last())
    }
}

/// What `key_index` is: the last position of key `k`, or -1.
pub proof fn lemma_key_index<V>(entries: Seq<(Seq<char>, V)>, k: Seq<char>)
    ensures
        -1 <= key_index(entries, k) < entries.len(),
        key_index(entries, k) >= 0 ==> entries[key_index(entries, k)].0 == k,
        forall|j: int| key_index(entries, k) < j < entries.len() && 0 <= j ==> entries[j].0 != k,
    decreases entries.len(),
{
    if entries.len() > 0 && entries.last().0 != k {
        lemma_key_index(entries.drop_last(), k);
        assert forall|j: int| key_index(entries, k) < j < entries.len() && 0 <= j implies entries[j].0
            != k by {
            if j < entries.len() - 1 {
                assert(entries[j] == entries.drop_last()[j]);
            }
        }
    }
}

/// In a table with distinct keys, an entry's key finds that entry.
pub proof fn lemma_key_index_of_entry<V>(entries: Seq<(Seq<char>, V)>, i: int)
    requires
        distinct_keys(entries),
        0 <= i < entries.len(),
    ensures
        key_index(entries, entries[i].0) == i,
{
    lemma_key_index(entries, entries[i].0);
}

/// Inserting keeps the keys of a table distinct.
pub proof fn inserted_keeps_keys_distinct<V>(entries: Seq<(Seq<char>, V)>, k: Seq<char>, v: V)
    requires
        distinct_keys(entries),
    ensures
        distinct_keys(inserted(entries, k, v)),
{
    lemma_key_index(entries, k);
}

/// A read after a write gives what was written; other keys are untouched.
pub proof fn lookup_after_insert<V>(entries: Seq<(Seq<char>, V)>, k: Seq<char>, v: V, k2: Seq<char>)
    requires
        distinct_keys(entries),
    ensures
        lookup(inserted(entries, k, v), k) == Some(v),
        k2 != k ==> lookup(inserted(entries, k, v), k2) == lookup(entries, k2),
{
    lemma_key_index(entries, k);
    lemma_key_index(entries, k2);
    let e2 = inserted(entries, k, v);
    inserted_keeps_keys_distinct(entries, k, v);
    lemma_key_index(e2, k);
    lemma_key_index(e2, k2);
    let i = key_index(entries, k);
    if i < 0 {
        lemma_key_index_of_entry(e2, entries.len() as int);
        if k2 != k {
            if key_index(entries, k2) >= 0 {
                lemma_key_index_of_entry(e2, key_index(entries, k2));
            } else if key_index(e2, k2) >= 0 {
                assert(e2[key_index(e2, k2)] == entries[key_index(e2, k2)]);
            }
        }
    } else {
        lemma_key_index_of_entry(e2, i);
        if k2 != k {
            if key_index(entries, k2) >= 0 {
                lemma_key_index_of_entry(e2, key_index(entries, k2));
            } else if key_index(e2, k2) >= 0 {
                assert(e2[key_index(e2, k2)] == entries[key_index(e2, k2)]);
            }
        }
    }
}

/// Adding keeps a list free of repeats, and the list then holds `x`.
pub proof fn added_keeps_distinct(items: Seq<Seq<char>>, x: Seq<char>)
    requires
        items.no_duplicates(),
    ensures
        added(items, x).no_duplicates(),
        added(items, x).contains(x),
        forall|y: Seq<char>| items.contains(y) ==> added(items, x).contains(y),
{
    if !items.contains(x) {
        assert(items.push(x)[items.len() as int] == x);
        assert forall|y: Seq<char>| items.contains(y) implies items.push(x).contains(y) by {
            let j = choose|j: int| 0 <= j < items.len() && items[j] == y;
            assert(items.push(x)[j] == y);
        }
    }
}

/// Adding all of `xs` keeps a list free of repeats, and it then holds
/// exactly what it held and the members of `xs`.
pub proof fn added_all_members(items: Seq<Seq<char>>, xs: Seq<Seq<char>>)
    requires
        items.no_duplicates(),
    ensures
        added_all(items, xs).no_duplicates(),
        forall|y: Seq<char>| added_all(items, xs).contains(y) <==> items.contains(y) || xs.contains(y),
    decreases xs.len(),
{
    if xs.len() > 0 {
        let prev = added_all(items, xs.drop_last());
        added_all_members(items, xs.drop_last());
        added_keeps_distinct(prev, xs.last());
        assert forall|y: Seq<char>| added_all(items, xs).contains(y) <==> items.contains(y)
            || xs.contains(y) by {
            if xs.contains(y) && !xs.drop_last().contains(y) {
                let j = choose|j: int| 0 <= j < xs.len() && xs[j] == y;
                if j < xs.len() - 1 {
                    assert(xs.drop_last()[j] == y);
                }
            }
            if xs.drop_last().contains(y) {
                let j = choose|j: int| 0 <= j < xs.drop_last().len() && xs.drop_last()[j] == y;
                assert(xs[j] == y);
            }
            if !prev.contains(xs.last()) && added(prev, xs.last()).contains(y) && y != xs.last() {
                let j = choose|j: int| 0 <= j < prev.len() + 1 && prev.push(xs.last())[j] == y;
                assert(prev[j] == y);
            }
        }
    }
}

/// Where key `k` is in `entries`, if anywhere.
pub fn find_key<V>(entries: &Vec<(String, V)>, k: &String) -> (r: Option<usize>)
    where V: DeepView,
    ensures
        match r {
            None => key_index(entries.deep_view(), k@) == -1,
            Some(i) => i as int == key_index(entries.deep_view(), k@),
        },
{
    let ghost d = entries.deep_view();
    let mut i = entries.len();
    assert(d.take(d.len() as int) =~= d);
    while i > 0
        invariant
            i <= entries.len(),
            d == entries.deep_view(),
            key_index(d, k@) == key_index(d.take(i as int), k@),
        decreases i,
    {
        let ghost t = d.take(i as int);
        assert(t.drop_last() =~= d.take(i - 1));
        assert(d[i - 1].0 == entries@[i - 1].0@);
        if entries[i - 1].0 == *k {
            return Some(i - 1);
        }
        i = i - 1;
    }
    None
}

/// Gives key `k` the value `v` in `entries`.
pub fn insert_entry<V>(entries: &mut Vec<(String, V)>, k: String, v: V)
    where V: DeepView,
    ensures
        final(entries).deep_view() == inserted(old(entries).deep_view(), k@, v.deep_view()),
{
    let ghost d = entries.deep_view();
    let ghost kv = k@;
    let ghost vv = v.deep_view();
    proof {
        lemma_key_index(d, kv);
    }
    match find_key(entries, &k) {
        None => {
            entries.push((k, v));
            assert(entries.deep_view() =~= d.push((kv, vv)));
        },
        Some(i) => {
            entries.set(i, (k, v));
            assert(entries.deep_view() =~= d.update(i as int, (kv, vv)));
        },
    }
}

/// Inserts each row of `rows` into `entries` in turn.
pub fn insert_entries<V>(entries: &mut Vec<(String, V)>, rows: Vec<(String, V)>)
    where V: DeepView,
    ensures
        final(entries).deep_view() == inserted_all(old(entries).deep_view(), rows.deep_view()),
{
    let ghost start = entries.deep_view();
    let ghost all = rows.deep_view();
    for row in it: rows
        invariant
            all.len() == it.seq().len(),
            forall|m: int| 0 <= m < all.len() ==> #[trigger] all[m] == it.seq()[m].deep_view(),
            entries.deep_view() == inserted_all(start, all.take(it.index() as int)),
    {
        assert(all.take(it.index() + 1).drop_last() =~= all.take(it.index() as int));
        let (k, v) = row;
        insert_entry(entries, k, v);
    }
    assert(all.take(all.len() as int) =~= all);
}

/// Adds `x` to `items` unless it is there already.
pub fn add_text(items: &mut Vec<String>, x: String)
    ensures
        final(items).deep_view() == added(old(items).deep_view(), x@),
{
    let ghost d = items.deep_view();
    let mut j: usize = 0;
    while j < items.len()
        invariant
            j <= items.len(),
            d == items.deep_view(),
            forall|m: int| 0 <= m < j ==> d[m] != x@,
        decreases items.len() - j,
    {
        if items[j] == x {
            assert(d[j as int] == x@);
            return;
        }
        j = j + 1;
    }
    let ghost xv = x@;
    items.push(x);
    assert(items.deep_view() =~= d.push(xv));
}

/// Inserting rows in turn keeps the keys of a table distinct.
pub proof fn inserted_all_keeps_keys_distinct<V>(entries: Seq<(Seq<char>, V)>, rows: Seq<(Seq<char>, V)>)
    requires
        distinct_keys(entries),
    ensures
        distinct_keys(inserted_all(entries, rows)),
    decreases rows.len(),
{
    if rows.len() > 0 {
        inserted_all_keeps_keys_distinct(entries, rows.drop_last());
        inserted_keeps_keys_distinct(inserted_all(entries, rows.drop_last()), rows.last().0, rows.last().1);
    }
}

} // verus!
