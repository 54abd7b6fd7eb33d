//! Insertion-ordered maps keyed by strings, as sequences of entries.
//!
//! The spec functions here describe what an insertion-ordered map (an
//! `IndexMap`) does: a key occurs at most once, a new key goes last, and
//! inserting a key that is present replaces its value in place.
use vstd::prelude::*;

verus! {

/// The view of a list of `(String, V)` entries.
pub open spec fn entries_view<V: View>(s: Seq<(String, V)>) -> Seq<(Seq<char>, V::V)> {
    s.map_values(|e: (String, V)| (e.0@, e.1@))
}

pub open spec fn has_key<V>(s: Seq<(Seq<char>, V)>, k: Seq<char>) -> bool {
    exists|i: int| 0 <= i < s.len() && #[trigger] s[i].0 == k
}

/// `i` is the first position of key `k`.
pub open spec fn is_first_key<V>(s: Seq<(Seq<char>, V)>, k: Seq<char>, i: int) -> bool {
    &&& 0 <= i < s.len()
    &&& s[i].0 == k
    &&& forall|j: int| 0 <= j < i ==> #[trigger] s[j].0 != k
}

/// The first position of key `k`, or -1 when it is absent.
pub open spec fn key_index<V>(s: Seq<(Seq<char>, V)>, k: Seq<char>) -> int {
    if has_key(s, k) {
        choose|i: int| is_first_key(s, k, i)
    } else {
        -1
    }
}

/// The value of key `k`, if present.
pub open spec fn seq_get<V>(s: Seq<(Seq<char>, V)>, k: Seq<char>) -> Option<V> {
    if has_key(s, k) {
        Some(s[key_index(s, k)].1)
    } else {
        None
    }
}

/// Inserting `(k, v)`: replaces the value in place when `k` is present,
/// else appends the entry.
pub open spec fn seq_insert<V>(s: Seq<(Seq<char>, V)>, k: Seq<char>, v: V) -> Seq<(Seq<char>, V)> {
    if has_key(s, k) {
        s.update(key_index(s, k), (k, v))
    } else {
        s.push((k, v))
    }
}

/// Inserting every entry of `t`, in order.
pub open spec fn seq_insert_all<V>(s: Seq<(Seq<char>, V)>, t: Seq<(Seq<char>, V)>) -> Seq<
    (Seq<char>, V),
>
    decreases t.len(),
{
    if t.len() == 0 {
        s
    } else {
        seq_insert(seq_insert_all(s, t.drop_last()), t.last().0, t.last().1)
    }
}

/// No key occurs twice.
pub open spec fn keys_unique<V>(s: Seq<(Seq<char>, V)>) -> bool {
    forall|i: int, j: int| 0 <= i < s.len() && 0 <= j < s.len() && i != j ==> s[i].0 != s[j].0
}

/// Where a key occurs, `key_index` finds its first position.
pub proof fn lemma_key_index<V>(s: Seq<(Seq<char>, V)>, k: Seq<char>, i: int)
    requires
        is_first_key(s, k, i),
    ensures
        key_index(s, k) == i,
{
    assert(has_key(s, k));
    let c = choose|c: int| is_first_key(s, k, c);
    assert(is_first_key(s, k, c));
    if c < i {
        assert(s[c].0 != k);
    } else if c > i {
        assert(s[i].0 != k);
    }
}

/// The position that `key_index` gives is that of the key.
pub proof fn lemma_key_index_found<V>(s: Seq<(Seq<char>, V)>, k: Seq<char>)
    requires
        has_key(s, k),
    ensures
        is_first_key(s, k, key_index(s, k)),
{
    let i = choose|i: int| 0 <= i < s.len() && #[trigger] s[i].0 == k;
    lemma_first_key_exists(s, k, i);
    let c = choose|c: int| is_first_key(s, k, c);
    assert(is_first_key(s, k, c));
}

proof fn lemma_first_key_exists<V>(s: Seq<(Seq<char>, V)>, k: Seq<char>, i: int)
    requires
        0 <= i < s.len(),
        s[i].0 == k,
    ensures
        exists|c: int| is_first_key(s, k, c),
    decreases i,
{
    if forall|j: int| 0 <= j < i ==> #[trigger] s[j].0 != k {
        assert(is_first_key(s, k, i));
    } else {
        let j = choose|j: int| 0 <= j < i && #[trigger] s[j].0 == k;
        lemma_first_key_exists(s, k, j);
    }
}

/// Inserting keeps keys unique.
pub proof fn lemma_insert_unique<V>(s: Seq<(Seq<char>, V)>, k: Seq<char>, v: V)
    requires
        keys_unique(s),
    ensures
        keys_unique(seq_insert(s, k, v)),
        seq_insert(s, k, v).len() == if has_key(s, k) { s.len() } else { s.len() + 1 },
{
    if has_key(s, k) {
        lemma_key_index_found(s, k);
    }
}

/// Inserting any entries into a map with unique keys keeps them unique.
pub proof fn lemma_insert_all_unique<V>(s: Seq<(Seq<char>, V)>, t: Seq<(Seq<char>, V)>)
    requires
        keys_unique(s),
    ensures
        keys_unique(seq_insert_all(s, t)),
    decreases t.len(),
{
    if t.len() > 0 {
        lemma_insert_all_unique(s, t.drop_last());
        lemma_insert_unique(seq_insert_all(s, t.drop_last()), t.last().0, t.last().1);
    }
}

/// Inserting entries whose keys are absent and distinct appends them.
pub proof fn lemma_insert_all_fresh<V>(s: Seq<(Seq<char>, V)>, t: Seq<(Seq<char>, V)>)
    requires
        keys_unique(s + t),
    ensures
        seq_insert_all(s, t) == s + t,
    decreases t.len(),
{
    if t.len() > 0 {
        let u = t.drop_last();
        assert(s + u =~= (s + t).drop_last());
        assert(keys_unique(s + u));
        lemma_insert_all_fresh(s, u);
        let k = t.last().0;
        assert(!has_key(s + u, k)) by {
            if has_key(s + u, k) {
                let i = choose|i: int| 0 <= i < (s + u).len() && #[trigger] (s + u)[i].0 == k;
                assert((s + t)[i].0 == (s + t)[(s + t).len() - 1].0);
            }
        }
        assert((s + u).push(t.last()) =~= s + t);
    }
}

/// After inserting `(k, v)`, looking `k` up gives `v`, and looking up any
/// other key gives what it gave before.
pub proof fn lemma_get_insert<V>(s: Seq<(Seq<char>, V)>, k: Seq<char>, v: V, other: Seq<char>)
    ensures
        seq_get(seq_insert(s, k, v), k) == Some(v),
        other != k ==> seq_get(seq_insert(s, k, v), other) == seq_get(s, other),
{
    let t = seq_insert(s, k, v);
    if has_key(s, k) {
        lemma_key_index_found(s, k);
        let i = key_index(s, k);
        assert(is_first_key(t, k, i));
        lemma_key_index(t, k, i);
        if other != k {
            if has_key(s, other) {
                lemma_key_index_found(s, other);
                let j = key_index(s, other);
                assert(is_first_key(t, other, j));
                lemma_key_index(t, other, j);
            } else {
                assert(!has_key(t, other)) by {
                    if has_key(t, other) {
                        let j = choose|j: int| 0 <= j < t.len() && #[trigger] t[j].0 == other;
                        assert(s[j].0 == other);
                    }
                }
            }
        }
    } else {
        let i = s.len() as int;
        assert(is_first_key(t, k, i)) by {
            assert forall|j: int| 0 <= j < i implies #[trigger] t[j].0 != k by {
                assert(t[j] == s[j]);
                if s[j].0 == k {
                    assert(has_key(s, k));
                }
            }
        }
        lemma_key_index(t, k, i);
        if other != k {
            if has_key(s, other) {
                lemma_key_index_found(s, other);
                let j = key_index(s, other);
                assert(is_first_key(t, other, j));
                lemma_key_index(t, other, j);
            } else {
                assert(!has_key(t, other)) by {
                    if has_key(t, other) {
                        let j = choose|j: int| 0 <= j < t.len() && #[trigger] t[j].0 == other;
                        if j < s.len() {
                            assert(s[j].0 == other);
                        }
                    }
                }
            }
        }
    }
}

/// The position of key `k` among `v`'s entries, the first if several.
pub fn find_key<V: View>(v: &Vec<(String, V)>, k: &str) -> (r: Option<usize>)
    ensures
        match r {
            Some(i) => is_first_key(entries_view(v@), k@, i as int),
            None => !has_key(entries_view(v@), k@),
        },
{
    let ghost ev = entries_view(v@);
    let mut i: usize = 0;
    while i < v.len()
        invariant
            i <= v@.len(),
            ev == entries_view(v@),
            ev.len() == v@.len(),
            forall|j: int| 0 <= j < i ==> #[trigger] ev[j].0 != k@,
        decreases v@.len() - i,
    {
        let name: &str = v[i].0.as_str();
        if crate::strs::str_eq(name, k) {
            assert(ev[i as int].0 == v@[i as int].0@);
            return Some(i);
        }
        assert(ev[i as int].0 == v@[i as int].0@);
        i = i + 1;
    }
    None
}

} // verus!

verus! {

/// Inserts `(k, val)` into a list of entries as an insertion-ordered map
/// does: a present key takes the new value in place, a new key goes last.
pub fn insert_entry<V: View>(v: &mut Vec<(String, V)>, k: String, val: V)
    ensures
        entries_view(final(v)@) == seq_insert(entries_view(old(v)@), k@, val@),
{
    let ghost ev = entries_view(old(v)@);
    match find_key(v, k.as_str()) {
        Some(i) => {
            proof {
                lemma_key_index(ev, k@, i as int);
            }
            v[i] = (k, val);
            assert(entries_view(v@) =~= ev.update(i as int, (k@, val@)));
        },
        None => {
            v.push((k, val));
            assert(entries_view(v@) =~= ev.push((k@, val@)));
        },
    }
}

} // verus!
