//! Small string-keyed tables: a vector of `(key, value)` pairs in which
//! no key occurs twice.
//!
//! The resolver's tables are tiny (one entry per top-level name of a
//! module), so a linear scan serves; what matters is that every read
//! and write is stated over the table's model, a partial map from the
//! key's text to the value's view.
use vstd::prelude::*;

use crate::lexer::scan::text_is;

verus! {

/// The entry of key `k` in `t`, by its view: the last pair whose key
/// reads `k`.
pub open spec fn table_get<V: View>(t: Seq<(String, V)>, k: Seq<char>) -> Option<V::V>
    decreases t.len(),
{
    if t.len() == 0 {
        None
    } else if t.last().0@ == k {
        Some(t.last().1@)
    } else {
        table_get(t.drop_last(), k)
    }
}

/// No key occurs twice.
pub open spec fn keys_unique<V>(t: Seq<(String, V)>) -> bool {
    forall|i: int, j: int| 0 <= i < j < t.len() ==> #[trigger] t[i].0@ != #[trigger] t[j].0@
}

/// The keys of a table, by their text.
pub open spec fn table_keys<V>(t: Seq<(String, V)>) -> Seq<Seq<char>> {
    t.map_values(|p: (String, V)| p.0@)
}

/// A key that occurs in the table has an entry, and one that does not
/// has none.
pub proof fn lemma_table_get_some<V: View>(t: Seq<(String, V)>, k: Seq<char>)
    ensures
        table_get(t, k) is Some <==> exists|i: int| 0 <= i < t.len() && t[i].0@ == k,
    decreases t.len(),
{
    if t.len() > 0 {
        lemma_table_get_some(t.drop_last(), k);
        if t.last().0@ != k {
            assert forall|i: int| 0 <= i < t.len() && t[i].0@ == k implies 0 <= i < t.len() - 1
                && t.drop_last()[i].0@ == k by {}
            assert forall|i: int| 0 <= i < t.len() - 1 && t.drop_last()[i].0@ == k implies 0 <= i
                < t.len() && t[i].0@ == k by {}
        } else {
            assert(t[t.len() - 1].0@ == k);
        }
    }
}

/// With unique keys, the entry at index `i` is the one `table_get` finds.
pub proof fn lemma_table_get_at<V: View>(t: Seq<(String, V)>, i: int)
    requires
        keys_unique(t),
        0 <= i < t.len(),
    ensures
        table_get(t, t[i].0@) == Some(t[i].1@),
    decreases t.len(),
{
    if i < t.len() - 1 {
        assert(t[i].0@ != t[t.len() - 1].0@);
        assert(t.drop_last()[i] == t[i]);
        lemma_table_get_at(t.drop_last(), i);
    }
}

/// Replacing the value at the index of key `t[i].0` changes that key's
/// entry alone.
pub proof fn lemma_table_get_update<V: View>(t: Seq<(String, V)>, i: int, v: V, k: Seq<char>)
    requires
        keys_unique(t),
        0 <= i < t.len(),
    ensures
        table_get(t.update(i, (t[i].0, v)), k) == if k == t[i].0@ {
            Some(v@)
        } else {
            table_get(t, k)
        },
    decreases t.len(),
{
    let u = t.update(i, (t[i].0, v));
    if i == t.len() - 1 {
        assert(u.drop_last() =~= t.drop_last());
    } else {
        assert(u.drop_last() =~= t.drop_last().update(i, (t[i].0, v)));
        assert(u.last() == t.last());
        assert(t[i].0@ != t.last().0@);
        lemma_table_get_update(t.drop_last(), i, v, k);
    }
}

/// The index of the entry with key `k`, if any.
pub fn table_find<V>(t: &Vec<(String, V)>, k: &str) -> (r: Option<usize>)
    ensures
        r matches Some(i) ==> i < t@.len() && t@[i as int].0@ == k@,
        r is None ==> forall|i: int| 0 <= i < t@.len() ==> t@[i].0@ != k@,
{
    let mut i: usize = 0;
    while i < t.len()
        invariant
            i <= t@.len(),
            forall|j: int| 0 <= j < i ==> t@[j].0@ != k@,
        decreases t.len() - i,
    {
        if text_is(&t[i].0, k) {
            return Some(i);
        }
        i = i + 1;
    }
    None
}

/// The entry of key `k`.
pub fn table_lookup<'a, V: View>(t: &'a Vec<(String, V)>, k: &str) -> (r: Option<&'a V>)
    requires
        keys_unique(t@),
    ensures
        r matches Some(v) ==> table_get(t@, k@) == Some(v@),
        r is None ==> table_get(t@, k@) is None,
{
    proof {
        lemma_table_get_some(t@, k@);
    }
    match table_find(t, k) {
        Some(i) => {
            proof {
                lemma_table_get_at(t@, i as int);
            }
            Some(&t[i].1)
        },
        None => None,
    }
}

/// Set the entry of key `k` to `v`, replacing an earlier one.
pub fn table_insert<V: View>(t: &mut Vec<(String, V)>, k: String, v: V)
    requires
        keys_unique(old(t)@),
    ensures
        keys_unique(final(t)@),
        forall|q: Seq<char>|
            #[trigger] table_get(final(t)@, q) == if q == k@ {
                Some(v@)
            } else {
                table_get(old(t)@, q)
            },
        forall|q: Seq<char>|
            table_keys(final(t)@).contains(q) <==> (table_keys(old(t)@).contains(q) || q == k@),
        !table_keys(old(t)@).contains(k@) ==> final(t)@ == old(t)@.push((k, v)),
{
    let ghost t0 = t@;
    match table_find(t, k.as_str()) {
        Some(i) => {
            proof {
                assert(table_keys(t0)[i as int] == k@);
            }
            let key = t[i].0.clone();
            t.set(i, (key, v));
            proof {
                assert(t@ == t0.update(i as int, (t0[i as int].0, v)));
                assert forall|q: Seq<char>|
                    #[trigger] table_get(t@, q) == if q == k@ {
                        Some(v@)
                    } else {
                        table_get(t0, q)
                    } by {
                    lemma_table_get_update(t0, i as int, v, q);
                }
                assert forall|a: int, b: int| 0 <= a < b < t@.len() implies #[trigger] t@[a].0@
                    != #[trigger] t@[b].0@ by {
                    assert(t@[a].0 == t0[a].0);
                    assert(t@[b].0 == t0[b].0);
                }
                assert forall|q: Seq<char>|
                    table_keys(t@).contains(q) <==> (table_keys(t0).contains(q) || q == k@) by {
                    if table_keys(t0).contains(q) {
                        let j = choose|j: int| 0 <= j < t0.len() && table_keys(t0)[j] == q;
                        assert(table_keys(t@)[j] == q);
                    }
                    if table_keys(t@).contains(q) {
                        let j = choose|j: int| 0 <= j < t@.len() && table_keys(t@)[j] == q;
                        assert(table_keys(t0)[j] == q);
                    }
                    if q == k@ {
                        assert(table_keys(t0)[i as int] == q);
                    }
                }
            }
        },
        None => {
            t.push((k, v));
            proof {
                assert(t@.drop_last() =~= t0);
                assert forall|q: Seq<char>|
                    table_keys(t@).contains(q) <==> (table_keys(t0).contains(q) || q == k@) by {
                    if table_keys(t0).contains(q) {
                        let j = choose|j: int| 0 <= j < t0.len() && table_keys(t0)[j] == q;
                        assert(table_keys(t@)[j] == q);
                    }
                    if q == k@ {
                        assert(table_keys(t@)[t0.len() as int] == q);
                    }
                    if table_keys(t@).contains(q) {
                        let j = choose|j: int| 0 <= j < t@.len() && table_keys(t@)[j] == q;
                        if j < t0.len() {
                            assert(table_keys(t0)[j] == q);
                        }
                    }
                }
            }
        },
    }
}

} // verus!
