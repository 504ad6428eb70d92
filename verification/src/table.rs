//! Tables from names to values, kept as a list of entries in the order in
//! which they were made: a later entry for a name replaces an earlier one.

use vstd::prelude::*;

verus! {

/// The table that a list of entries stands for.
pub open spec fn table_of<V>(entries: Seq<(Seq<char>, V)>) -> Map<Seq<char>, V>
    decreases entries.len(),
{
    if entries.len() == 0 {
        Map::empty()
    } else {
        table_of(entries.drop_last()).insert(entries.last().0, entries.last().1)
    }
}

/// The last entry for a name is what the table holds for it.
pub proof fn lemma_table_found<V>(entries: Seq<(Seq<char>, V)>, name: Seq<char>, i: int)
    requires
        0 <= i < entries.len(),
        entries[i].0 == name,
        forall|j: int| i < j < entries.len() ==> entries[j].0 != name,
    ensures
        table_of(entries).contains_key(name),
        table_of(entries)[name] == entries[i].1,
    decreases entries.len(),
{
    if i < entries.len() - 1 {
        lemma_table_found(entries.drop_last(), name, i);
    }
}

/// A name without an entry is not in the table.
pub proof fn lemma_table_absent<V>(entries: Seq<(Seq<char>, V)>, name: Seq<char>)
    requires
        forall|j: int| 0 <= j < entries.len() ==> entries[j].0 != name,
    ensures
        !table_of(entries).contains_key(name),
    decreases entries.len(),
{
    if entries.len() > 0 {
        lemma_table_absent(entries.drop_last(), name);
    }
}

/// Adding an entry at the end inserts it into the table.
pub proof fn lemma_table_push<V>(entries: Seq<(Seq<char>, V)>, name: Seq<char>, value: V)
    ensures
        table_of(entries.push((name, value))) == table_of(entries).insert(name, value),
{
    assert(entries.push((name, value)).drop_last() =~= entries);
}

} // verus!
