//! Identifier-keyed association tables.
//!
//! Both the texture cache and the atlas lookup table are stored as vectors
//! of `(String, value)` pairs with pairwise distinct identifiers.  Their
//! contracts speak of the corresponding `Map` from identifier characters to
//! values; the lemmas here connect the two views.

use vstd::prelude::*;

verus! {

/// The map described by an association table: later entries would shadow
/// earlier ones, but tables with `unique_ids` have no shadowing.
pub open spec fn table_map<V>(entries: Seq<(String, V)>) -> Map<Seq<char>, V>
    decreases entries.len(),
{
    if entries.len() == 0 {
        Map::empty()
    } else {
        table_map(entries.drop_last()).insert(entries.last().0@, entries.last().1)
    }
}

/// No two entries carry the same identifier.
pub open spec fn unique_ids<V>(entries: Seq<(String, V)>) -> bool {
    forall|j: int, k: int|
        0 <= j < k < entries.len() ==> (#[trigger] entries[j]).0@ != (#[trigger] entries[k]).0@
}

/// The position of an identifier among the entries, if it occurs.
pub fn index_of<V>(entries: &Vec<(String, V)>, path: &str) -> (r: Option<usize>)
    ensures
        r matches Some(i) ==> i < entries@.len() && entries@[i as int].0@ == path@,
        r is None ==> forall|k: int|
            0 <= k < entries@.len() ==> (#[trigger] entries@[k]).0@ != path@,
{
    let key: String = path.to_owned();
    let n = entries.len();
    let mut i: usize = 0;
    while i < n
        invariant
            n == entries@.len(),
            i <= n,
            key@ == path@,
            forall|k: int| 0 <= k < i ==> (#[trigger] entries@[k]).0@ != path@,
        decreases n - i,
    {
        if entries[i].0 == key {
            return Some(i);
        }
        i = i + 1;
    }
    None
}

/// The table's map has exactly the identifiers of its entries.
pub proof fn lemma_table_map_contains<V>(entries: Seq<(String, V)>, id: Seq<char>)
    ensures
        table_map(entries).contains_key(id) <==> exists|k: int|
            0 <= k < entries.len() && (#[trigger] entries[k]).0@ == id,
    decreases entries.len(),
{
    if entries.len() > 0 {
        lemma_table_map_contains(entries.drop_last(), id);
        if table_map(entries).contains_key(id) {
            if entries.last().0@ == id {
                assert(entries[entries.len() - 1].0@ == id);
            } else {
                let k = choose|k: int|
                    0 <= k < entries.drop_last().len() && (#[trigger] entries.drop_last()[k]).0@
                        == id;
                assert(entries[k].0@ == id);
            }
        }
        if exists|k: int| 0 <= k < entries.len() && (#[trigger] entries[k]).0@ == id {
            let k = choose|k: int| 0 <= k < entries.len() && (#[trigger] entries[k]).0@ == id;
            if k < entries.len() - 1 {
                assert(entries.drop_last()[k].0@ == id);
            }
        }
    }
}

/// In a table without duplicate identifiers, the map sends each entry's
/// identifier to that entry's value.
pub proof fn lemma_table_map_at<V>(entries: Seq<(String, V)>, k: int)
    requires
        unique_ids(entries),
        0 <= k < entries.len(),
    ensures
        table_map(entries).contains_key(entries[k].0@),
        table_map(entries)[entries[k].0@] == entries[k].1,
    decreases entries.len(),
{
    if k == entries.len() - 1 {
    } else {
        lemma_table_map_at(entries.drop_last(), k);
        assert(entries.drop_last()[k] == entries[k]);
        assert(entries[k].0@ != entries[entries.len() - 1].0@);
    }
}

/// Appending an entry inserts its identifier.
pub proof fn lemma_table_map_push<V>(entries: Seq<(String, V)>, id: String, v: V)
    ensures
        table_map(entries.push((id, v))) == table_map(entries).insert(id@, v),
{
    assert(entries.push((id, v)).drop_last() =~= entries);
    assert(entries.push((id, v)).last() == (id, v));
}

/// Removing an entry removes its identifier, and keeps the rest unique.
pub proof fn lemma_table_map_remove<V>(entries: Seq<(String, V)>, i: int)
    requires
        unique_ids(entries),
        0 <= i < entries.len(),
    ensures
        table_map(entries.remove(i)) == table_map(entries).remove(entries[i].0@),
        unique_ids(entries.remove(i)),
    decreases entries.len(),
{
    let id = entries[i].0@;
    assert forall|j: int, k: int| 0 <= j < k < entries.remove(i).len() implies (#[trigger] entries.remove(
        i,
    )[j]).0@ != (#[trigger] entries.remove(i)[k]).0@ by {
        let j0 = if j < i {
            j
        } else {
            j + 1
        };
        let k0 = if k < i {
            k
        } else {
            k + 1
        };
        assert(entries.remove(i)[j] == entries[j0] && entries.remove(i)[k] == entries[k0]);
    }
    if i == entries.len() - 1 {
        assert(entries.remove(i) =~= entries.drop_last());
        lemma_table_map_contains(entries.drop_last(), id);
        assert(forall|k: int|
            0 <= k < entries.drop_last().len() ==> (#[trigger] entries.drop_last()[k]).0@ != id);
        assert(!table_map(entries.drop_last()).contains_key(id));
        assert(table_map(entries.drop_last()).insert(id, entries[i].1).remove(id) =~= table_map(
            entries.drop_last(),
        ));
    } else {
        lemma_table_map_remove(entries.drop_last(), i);
        assert(entries.remove(i).drop_last() =~= entries.drop_last().remove(i));
        assert(entries.remove(i).last() == entries.last());
        let last_id = entries.last().0@;
        let last_v = entries.last().1;
        assert(entries[i].0@ != entries[entries.len() - 1].0@);
        assert(table_map(entries.drop_last()).remove(id).insert(last_id, last_v) =~= table_map(
            entries.drop_last(),
        ).insert(last_id, last_v).remove(id));
    }
}

} // verus!
