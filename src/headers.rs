//! Header lists: an ordered list of (name, value) pairs used as a map in
//! which every name occurs at most once and a later insertion of a name
//! replaces the earlier value in place.
use vstd::prelude::*;
use crate::text::same_text;

verus! {

/// The characters of each name and value of a header list.
pub open spec fn pairs_view(v: Seq<(String, String)>) -> Seq<(Seq<char>, Seq<char>)> {
    v.map_values(|p: (String, String)| (p.0@, p.1@))
}

/// Position of the first pair at or after `i` whose name is `k`, or -1.
pub open spec fn key_index(hs: Seq<(Seq<char>, Seq<char>)>, k: Seq<char>, i: int) -> int
    decreases hs.len() - i,
{
    if i < 0 || i >= hs.len() {
        -1
    } else if hs[i].0 == k {
        i
    } else {
        key_index(hs, k, i + 1)
    }
}

/// The value stored under `k`, if any.
pub open spec fn lookup(hs: Seq<(Seq<char>, Seq<char>)>, k: Seq<char>) -> Option<Seq<char>> {
    let j = key_index(hs, k, 0);
    if j < 0 {
        None
    } else {
        Some(hs[j].1)
    }
}

/// `hs` with `k` set to `v`: the pair of that name is replaced where it is,
/// or a new pair goes at the end.
pub open spec fn put(hs: Seq<(Seq<char>, Seq<char>)>, k: Seq<char>, v: Seq<char>) -> Seq<
    (Seq<char>, Seq<char>),
> {
    let j = key_index(hs, k, 0);
    if j < 0 {
        hs.push((k, v))
    } else {
        hs.update(j, (k, v))
    }
}

/// The pairs of `items` put into `hs` one after the other.
pub open spec fn put_all(hs: Seq<(Seq<char>, Seq<char>)>, items: Seq<(Seq<char>, Seq<char>)>) -> Seq<
    (Seq<char>, Seq<char>),
>
    decreases items.len(),
{
    if items.len() == 0 {
        hs
    } else {
        put(put_all(hs, items.drop_last()), items.last().0, items.last().1)
    }
}

/// No name occurs twice.
pub open spec fn keys_unique(hs: Seq<(Seq<char>, Seq<char>)>) -> bool {
    forall|a: int, b: int| 0 <= a < b < hs.len() ==> hs[a].0 != hs[b].0
}

/// `key_index` is the first matching position at or after `i`, or -1 when
/// no later position matches.
pub proof fn lemma_key_index(hs: Seq<(Seq<char>, Seq<char>)>, k: Seq<char>, i: int)
    requires
        0 <= i <= hs.len(),
    ensures
        key_index(hs, k, i) == -1 || i <= key_index(hs, k, i) < hs.len(),
        key_index(hs, k, i) == -1 ==> forall|m: int| i <= m < hs.len() ==> hs[m].0 != k,
        key_index(hs, k, i) >= 0 ==> hs[key_index(hs, k, i)].0 == k && forall|m: int|
            i <= m < key_index(hs, k, i) ==> hs[m].0 != k,
    decreases hs.len() - i,
{
    if i < hs.len() && hs[i].0 != k {
        lemma_key_index(hs, k, i + 1);
    }
}

/// Putting a name keeps the names unique.
pub proof fn lemma_put_unique(hs: Seq<(Seq<char>, Seq<char>)>, k: Seq<char>, v: Seq<char>)
    requires
        keys_unique(hs),
    ensures
        keys_unique(put(hs, k, v)),
{
    lemma_key_index(hs, k, 0);
}

/// With names that are all different, putting the pairs one after the
/// other into an empty list gives the pairs back in their order.
pub proof fn lemma_put_all_unique(items: Seq<(Seq<char>, Seq<char>)>)
    requires
        keys_unique(items),
    ensures
        put_all(Seq::empty(), items) == items,
    decreases items.len(),
{
    if items.len() > 0 {
        let pre = items.drop_last();
        assert(keys_unique(pre));
        lemma_put_all_unique(pre);
        lemma_key_index(pre, items.last().0, 0);
        assert(pre.push(items.last()) == items);
    }
}

/// Position of the pair named `k`, if there is one.
pub fn find_key(hs: &Vec<(String, String)>, k: &str) -> (r: Option<usize>)
    ensures
        match r {
            Some(j) => j < hs@.len() && key_index(pairs_view(hs@), k@, 0) == j as int,
            None => key_index(pairs_view(hs@), k@, 0) == -1,
        },
{
    let ghost hv = pairs_view(hs@);
    let mut i: usize = 0;
    while i < hs.len()
        invariant
            hv == pairs_view(hs@),
            i <= hs@.len(),
            key_index(hv, k@, 0) == key_index(hv, k@, i as int),
        decreases hs@.len() - i,
    {
        if same_text(hs[i].0.as_str(), k) {
            return Some(i);
        }
        i = i + 1;
    }
    None
}

/// The value stored under `k`, if any.
pub fn get_header(hs: &Vec<(String, String)>, k: &str) -> (r: Option<String>)
    ensures
        match r {
            Some(s) => lookup(pairs_view(hs@), k@) == Some(s@),
            None => lookup(pairs_view(hs@), k@) is None,
        },
{
    match find_key(hs, k) {
        Some(j) => Some(hs[j].1.clone()),
        None => None,
    }
}

/// Sets the header `k` to `v`, replacing an earlier value of that name in
/// place or adding the pair at the end.
pub fn insert_header(hs: &mut Vec<(String, String)>, k: String, v: String)
    ensures
        pairs_view(final(hs)@) == put(pairs_view(old(hs)@), k@, v@),
{
    let ghost before = pairs_view(hs@);
    match find_key(hs, k.as_str()) {
        Some(j) => {
            let ghost kv = (k@, v@);
            hs.set(j, (k, v));
            assert(pairs_view(hs@) =~= before.update(j as int, kv));
        },
        None => {
            let ghost kv = (k@, v@);
            hs.push((k, v));
            assert(pairs_view(hs@) =~= before.push(kv));
        },
    }
}

} // verus!
