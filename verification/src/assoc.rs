//! Association lists keyed by id strings, as every registry in this
//! crate stores them: the lookup function, the uniqueness invariant,
//! and the lemmas that carry lookups over updates, appends and
//! removals.
use vstd::prelude::*;

verus! {

/// The value stored under `id`: the first entry whose key matches.
pub open spec fn spec_assoc_lookup<V>(entries: Seq<(String, V)>, id: Seq<char>) -> Option<V>
    decreases entries.len(),
{
    if entries.len() == 0 {
        None
    } else if entries[0].0@ == id {
        Some(entries[0].1)
    } else {
        spec_assoc_lookup(entries.drop_first(), id)
    }
}

/// No key occurs twice.
pub open spec fn spec_assoc_wf<V>(entries: Seq<(String, V)>) -> bool {
    forall|i: int, j: int|
        0 <= i < j < entries.len() ==> (#[trigger] entries[i]).0@ != (#[trigger] entries[j]).0@
}

/// An entry whose key has no earlier duplicate is what the lookup
/// finds.
pub proof fn lemma_assoc_lookup_at<V>(entries: Seq<(String, V)>, id: Seq<char>, i: int)
    requires
        0 <= i < entries.len(),
        entries[i].0@ == id,
        forall|j: int| 0 <= j < i ==> (#[trigger] entries[j]).0@ != id,
    ensures
        spec_assoc_lookup(entries, id) == Some(entries[i].1),
    decreases i,
{
    if i == 0 {
    } else {
        assert(entries.drop_first()[i - 1] == entries[i]);
        assert forall|j: int| 0 <= j < i - 1 implies (#[trigger] entries.drop_first()[j]).0@
            != id by {
            assert(entries.drop_first()[j] == entries[j + 1]);
        }
        lemma_assoc_lookup_at(entries.drop_first(), id, i - 1);
    }
}

/// When no entry's key matches, the lookup finds nothing.
pub proof fn lemma_assoc_lookup_none<V>(entries: Seq<(String, V)>, id: Seq<char>)
    requires
        forall|j: int| 0 <= j < entries.len() ==> (#[trigger] entries[j]).0@ != id,
    ensures
        spec_assoc_lookup(entries, id) is None,
    decreases entries.len(),
{
    if entries.len() > 0 {
        assert forall|j: int| 0 <= j < entries.drop_first().len() implies (
        #[trigger] entries.drop_first()[j]).0@ != id by {
            assert(entries.drop_first()[j] == entries[j + 1]);
        }
        lemma_assoc_lookup_none(entries.drop_first(), id);
    }
}

/// Lookups of a different key see through a value update at `i`.
pub proof fn lemma_assoc_lookup_agrees<V>(
    before: Seq<(String, V)>,
    after: Seq<(String, V)>,
    other: Seq<char>,
    i: int,
)
    requires
        before.len() == after.len(),
        0 <= i < before.len(),
        forall|j: int| 0 <= j < before.len() && j != i ==> after[j] == before[j],
        before[i].0@ == after[i].0@,
        after[i].0@ != other,
    ensures
        spec_assoc_lookup(after, other) == spec_assoc_lookup(before, other),
    decreases before.len(),
{
    if before.len() == 0 {
    } else if i == 0 {
        assert(after[0].0@ == before[0].0@);
        if before[0].0@ == other {
        } else {
            assert(after.drop_first() =~= before.drop_first());
        }
    } else {
        assert(after[0] == before[0]);
        if before[0].0@ == other {
        } else {
            assert forall|j: int|
                0 <= j < before.drop_first().len() && j != i - 1 implies after.drop_first()[j]
                == before.drop_first()[j] by {
                assert(after.drop_first()[j] == after[j + 1]);
                assert(before.drop_first()[j] == before[j + 1]);
            }
            assert(before.drop_first()[i - 1] == before[i]);
            assert(after.drop_first()[i - 1] == after[i]);
            lemma_assoc_lookup_agrees(before.drop_first(), after.drop_first(), other, i - 1);
        }
    }
}

/// Updating the entry at the first index of `id` changes only that
/// key's value and keeps the keys unique.
pub proof fn lemma_assoc_update<V>(
    before: Seq<(String, V)>,
    after: Seq<(String, V)>,
    id: Seq<char>,
    i: int,
)
    requires
        0 <= i < before.len(),
        after.len() == before.len(),
        before[i].0@ == id,
        after[i].0@ == id,
        forall|j: int| 0 <= j < before.len() && j != i ==> after[j] == before[j],
        forall|j: int| 0 <= j < i ==> (#[trigger] before[j]).0@ != id,
        spec_assoc_wf(before),
    ensures
        spec_assoc_lookup(after, id) == Some(after[i].1),
        forall|other: Seq<char>|
            other != id ==> #[trigger] spec_assoc_lookup(after, other) == spec_assoc_lookup(
                before,
                other,
            ),
        spec_assoc_wf(after),
{
    assert forall|j: int| 0 <= j < i implies (#[trigger] after[j]).0@ != id by {
        assert(after[j] == before[j]);
    }
    lemma_assoc_lookup_at(after, id, i);
    assert forall|other: Seq<char>| other != id implies #[trigger] spec_assoc_lookup(after, other)
        == spec_assoc_lookup(before, other) by {
        lemma_assoc_lookup_agrees(before, after, other, i);
    }
    assert forall|p: int, q: int| 0 <= p < q < after.len() implies (#[trigger] after[p]).0@ != (
    #[trigger] after[q]).0@ by {
        assert(before[p].0@ != before[q].0@);
        assert(after[p].0@ == before[p].0@);
        assert(after[q].0@ == before[q].0@);
    }
}

/// A lookup that does not match an appended entry never reaches it.
pub proof fn lemma_assoc_lookup_skips_last<V>(
    before: Seq<(String, V)>,
    after: Seq<(String, V)>,
    other: Seq<char>,
)
    requires
        after.len() == before.len() + 1,
        forall|j: int| 0 <= j < before.len() ==> after[j] == before[j],
        after.last().0@ != other,
    ensures
        spec_assoc_lookup(after, other) == spec_assoc_lookup(before, other),
    decreases before.len(),
{
    if before.len() == 0 {
        assert(after.len() == 1);
        assert(after[0].0@ != other);
    } else {
        assert(after[0] == before[0]);
        if before[0].0@ == other {
        } else {
            assert forall|j: int| 0 <= j < before.drop_first().len() implies after.drop_first()[j]
                == before.drop_first()[j] by {
                assert(after.drop_first()[j] == after[j + 1]);
                assert(before.drop_first()[j] == before[j + 1]);
            }
            assert(after.drop_first().last() == after.last());
            lemma_assoc_lookup_skips_last(before.drop_first(), after.drop_first(), other);
        }
    }
}

/// Appending an entry under a fresh key stores its value and leaves
/// every other lookup unchanged.
pub proof fn lemma_assoc_append<V>(
    before: Seq<(String, V)>,
    after: Seq<(String, V)>,
    id: Seq<char>,
)
    requires
        after.len() == before.len() + 1,
        forall|j: int| 0 <= j < before.len() ==> after[j] == before[j],
        after.last().0@ == id,
        forall|j: int| 0 <= j < before.len() ==> (#[trigger] before[j]).0@ != id,
        spec_assoc_wf(before),
    ensures
        spec_assoc_lookup(after, id) == Some(after.last().1),
        forall|other: Seq<char>|
            other != id ==> #[trigger] spec_assoc_lookup(after, other) == spec_assoc_lookup(
                before,
                other,
            ),
        spec_assoc_wf(after),
{
    let n = before.len() as int;
    assert(after[n].0@ == id);
    assert forall|j: int| 0 <= j < n implies (#[trigger] after[j]).0@ != id by {
        assert(after[j] == before[j]);
    }
    lemma_assoc_lookup_at(after, id, n);
    assert forall|other: Seq<char>| other != id implies #[trigger] spec_assoc_lookup(after, other)
        == spec_assoc_lookup(before, other) by {
        lemma_assoc_lookup_skips_last(before, after, other);
    }
    assert forall|p: int, q: int| 0 <= p < q < after.len() implies (#[trigger] after[p]).0@ != (
    #[trigger] after[q]).0@ by {
        if q < n {
            assert(after[p] == before[p]);
            assert(after[q] == before[q]);
        } else {
            assert(after[p] == before[p]);
            assert(after[q].0@ == id);
        }
    }
}

/// Removing an entry of a different key does not change a lookup.
pub proof fn lemma_assoc_lookup_drops<V>(
    before: Seq<(String, V)>,
    id: Seq<char>,
    other: Seq<char>,
    i: int,
)
    requires
        0 <= i < before.len(),
        before[i].0@ == id,
        other != id,
    ensures
        spec_assoc_lookup(before.remove(i), other) == spec_assoc_lookup(before, other),
    decreases before.len(),
{
    let after = before.remove(i);
    if i == 0 {
        assert(after =~= before.drop_first());
        assert(before[0].0@ != other);
    } else {
        assert(after[0] == before[0]);
        if before[0].0@ == other {
        } else {
            assert(after.drop_first() =~= before.drop_first().remove(i - 1));
            assert(before.drop_first()[i - 1] == before[i]);
            lemma_assoc_lookup_drops(before.drop_first(), id, other, i - 1);
        }
    }
}

/// Removing the only entry of `id` empties its lookup and leaves the
/// rest alone.
pub proof fn lemma_assoc_remove<V>(
    before: Seq<(String, V)>,
    after: Seq<(String, V)>,
    id: Seq<char>,
    i: int,
)
    requires
        0 <= i < before.len(),
        after == before.remove(i),
        before[i].0@ == id,
        forall|j: int| 0 <= j < i ==> (#[trigger] before[j]).0@ != id,
        spec_assoc_wf(before),
    ensures
        spec_assoc_lookup(after, id) is None,
        forall|other: Seq<char>|
            other != id ==> #[trigger] spec_assoc_lookup(after, other) == spec_assoc_lookup(
                before,
                other,
            ),
        spec_assoc_wf(after),
{
    assert forall|j: int| 0 <= j < after.len() implies (#[trigger] after[j]).0@ != id by {
        if j < i {
            assert(after[j] == before[j]);
        } else {
            assert(after[j] == before[j + 1]);
        }
    }
    lemma_assoc_lookup_none(after, id);
    assert forall|other: Seq<char>| other != id implies #[trigger] spec_assoc_lookup(after, other)
        == spec_assoc_lookup(before, other) by {
        lemma_assoc_lookup_drops(before, id, other, i);
    }
    assert forall|p: int, q: int| 0 <= p < q < after.len() implies (#[trigger] after[p]).0@ != (
    #[trigger] after[q]).0@ by {
        let bp = if p < i {
            p
        } else {
            p + 1
        };
        let bq = if q < i {
            q
        } else {
            q + 1
        };
        assert(after[p] == before[bp]);
        assert(after[q] == before[bq]);
    }
}

} // verus!
