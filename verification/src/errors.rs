//! The error distribution: how often each error description was seen, kept
//! as a list in the order in which the descriptions first came.
use vstd::prelude::*;

verus! {

/// One entry of the error distribution.
#[derive(Debug, Clone, PartialEq, Eq)]
pub struct ErrorCount {
    /// What the failed request reported.
    pub description: String,
    /// The number of requests that failed with this description.
    pub count: u64,
}

/// The entries of a distribution as pairs of a description and its count.
pub open spec fn entries(errors: Seq<ErrorCount>) -> Seq<(Seq<char>, nat)> {
    errors.map_values(|e: ErrorCount| (e.description@, e.count as nat))
}

/// The number of failures in a distribution: the sum of its counts.
pub open spec fn failures(entries: Seq<(Seq<char>, nat)>) -> nat
    decreases entries.len(),
{
    if entries.len() == 0 {
        0
    } else {
        failures(entries.drop_last()) + entries.last().1
    }
}

/// No description has two entries, and no entry counts nothing.
pub open spec fn distinct(entries: Seq<(Seq<char>, nat)>) -> bool {
    &&& forall|i: int, j: int|
        0 <= i < j < entries.len() ==> entries[i].0 != entries[j].0
    &&& forall|i: int| 0 <= i < entries.len() ==> (#[trigger] entries[i]).1 > 0
}

/// The index of the entry for `description`, or the length of `entries` if
/// there is none.
pub open spec fn position(entries: Seq<(Seq<char>, nat)>, description: Seq<char>) -> int
    decreases entries.len(),
{
    if entries.len() == 0 {
        0
    } else if entries.first().0 == description {
        0
    } else {
        1 + position(entries.drop_first(), description)
    }
}

/// The number of failures that `entries` holds for `description`.
pub open spec fn count_of(entries: Seq<(Seq<char>, nat)>, description: Seq<char>) -> nat {
    let k = position(entries, description);
    if k < entries.len() {
        entries[k].1
    } else {
        0
    }
}

/// The distribution after one more failure with `description`: the count of
/// its entry is raised by one, and where it has no entry yet, one with the
/// count 1 is added at the end.
pub open spec fn tally(entries: Seq<(Seq<char>, nat)>, description: Seq<char>) -> Seq<
    (Seq<char>, nat),
> {
    let k = position(entries, description);
    if k < entries.len() {
        entries.update(k, (description, entries[k].1 + 1))
    } else {
        entries.push((description, 1))
    }
}

/// `position` is the first index at which `description` stands.
pub proof fn lemma_position(entries: Seq<(Seq<char>, nat)>, description: Seq<char>)
    ensures
        0 <= position(entries, description) <= entries.len(),
        position(entries, description) < entries.len() ==> entries[position(
            entries,
            description,
        )].0 == description,
        forall|i: int|
            0 <= i < position(entries, description) ==> (#[trigger] entries[i]).0 != description,
    decreases entries.len(),
{
    if entries.len() > 0 && entries.first().0 != description {
        let rest = entries.drop_first();
        lemma_position(rest, description);
        assert forall|i: int| 0 <= i < position(entries, description) implies (
        #[trigger] entries[i]).0 != description by {
            if i > 0 {
                assert(entries[i] == rest[i - 1]);
            }
        }
    }
}

/// Raising one count by `by` raises the number of failures by `by`.
pub proof fn lemma_failures_update(entries: Seq<(Seq<char>, nat)>, k: int, by: nat)
    requires
        0 <= k < entries.len(),
    ensures
        failures(entries.update(k, (entries[k].0, entries[k].1 + by))) == failures(entries) + by,
        entries[k].1 <= failures(entries),
    decreases entries.len(),
{
    let updated = entries.update(k, (entries[k].0, entries[k].1 + by));
    if k == entries.len() - 1 {
        assert(updated.drop_last() == entries.drop_last());
    } else {
        lemma_failures_update(entries.drop_last(), k, by);
        assert(updated.drop_last() == entries.drop_last().update(
            k,
            (entries[k].0, entries[k].1 + by),
        ));
    }
}

/// One more failure is one more failure, under its own description, and the
/// entries stay distinct.
pub proof fn lemma_tally(entries: Seq<(Seq<char>, nat)>, description: Seq<char>)
    ensures
        failures(tally(entries, description)) == failures(entries) + 1,
        count_of(tally(entries, description), description) == count_of(entries, description) + 1,
        forall|other: Seq<char>|
            other != description ==> count_of(tally(entries, description), other) == count_of(
                entries,
                other,
            ),
        distinct(entries) ==> distinct(tally(entries, description)),
{
    let k = position(entries, description);
    let after = tally(entries, description);
    lemma_position(entries, description);
    lemma_position(after, description);
    if k < entries.len() {
        lemma_failures_update(entries, k, 1);
        assert(after[k].0 == description);
    } else {
        assert(after.drop_last() == entries);
        assert(after[k].0 == description);
    }
    assert(position(after, description) == k);
    assert forall|other: Seq<char>| other != description implies count_of(after, other)
        == count_of(entries, other) by {
        lemma_position(entries, other);
        lemma_position(after, other);
        let a = position(entries, other);
        let b = position(after, other);
        if a < entries.len() {
            assert(after[a].0 == other);
        }
        if b < entries.len() {
            assert(entries[b].0 == after[b].0);
        }
    }
}

/// The distribution as a mapping: each description that has an entry, with
/// the number of failures under it.
pub open spec fn distribution(entries: Seq<(Seq<char>, nat)>) -> Map<Seq<char>, nat> {
    Map::new(
        |description: Seq<char>| position(entries, description) < entries.len(),
        |description: Seq<char>| count_of(entries, description),
    )
}

/// One more failure with `description` raises what the mapping holds for it
/// by one, from nothing where it held nothing, and leaves the rest as it is.
pub proof fn lemma_tally_distribution(entries: Seq<(Seq<char>, nat)>, description: Seq<char>)
    ensures
        distribution(tally(entries, description)) == distribution(entries).insert(
            description,
            count_of(entries, description) + 1,
        ),
{
    let after = tally(entries, description);
    lemma_tally(entries, description);
    assert forall|other: Seq<char>|
        (position(after, other) < after.len()) == (other == description || position(entries, other)
            < entries.len()) by {
        lemma_position(entries, other);
        lemma_position(after, other);
        lemma_position(entries, description);
        let a = position(entries, other);
        let b = position(after, other);
        if a < entries.len() {
            assert(after[a].0 == entries[a].0);
        }
        if b < entries.len() {
            assert(after[b].0 == entries[b].0);
        }
        if other == description {
            assert(after[position(entries, description)].0 == description);
        }
    }
    assert(distribution(after) =~= distribution(entries).insert(
        description,
        count_of(entries, description) + 1,
    ));
}

/// The first index at which `description` stands is its position.
pub proof fn lemma_position_is(entries: Seq<(Seq<char>, nat)>, description: Seq<char>, k: int)
    requires
        0 <= k <= entries.len(),
        forall|i: int| 0 <= i < k ==> (#[trigger] entries[i]).0 != description,
        k < entries.len() ==> entries[k].0 == description,
    ensures
        position(entries, description) == k,
{
    lemma_position(entries, description);
    let p = position(entries, description);
    if p < k {
        assert(entries[p].0 != description);
    }
}

/// Counts one more failure with `description` in `errors`.
pub fn count_failure(errors: &mut Vec<ErrorCount>, description: String)
    requires
        failures(entries(old(errors)@)) < u64::MAX,
    ensures
        entries(final(errors)@) == tally(entries(old(errors)@), description@),
{
    let ghost before = entries(errors@);
    let mut k: usize = 0;
    while k < errors.len()
        invariant
            k <= errors.len(),
            entries(errors@) == before,
            before == entries(old(errors)@),
            failures(before) < u64::MAX,
            forall|i: int| 0 <= i < k ==> (#[trigger] before[i]).0 != description@,
        decreases errors.len() - k,
    {
        if errors[k].description == description {
            let count = errors[k].count;
            proof {
                assert(before[k as int].0 == description@);
                lemma_position_is(before, description@, k as int);
                lemma_failures_update(before, k as int, 0);
                assert(before[k as int].1 == count);
            }
            errors.set(k, ErrorCount { description, count: count + 1 });
            assert(entries(errors@) =~= tally(before, description@));
            return ;
        }
        assert(before[k as int].0 != description@);
        k += 1;
    }
    proof {
        lemma_position_is(before, description@, k as int);
    }
    errors.push(ErrorCount { description, count: 1 });
    assert(entries(errors@) =~= tally(before, description@));
}

/// The failures of `n` entries are at most `n` times the largest count.
pub proof fn lemma_failures_bound(errors: Seq<ErrorCount>)
    ensures
        failures(entries(errors)) <= errors.len() * u64::MAX,
    decreases errors.len(),
{
    if errors.len() > 0 {
        lemma_failures_bound(errors.drop_last());
        assert(entries(errors).drop_last() =~= entries(errors.drop_last()));
        assert((errors.len() - 1) * u64::MAX + u64::MAX == errors.len() * u64::MAX)
            by (nonlinear_arith);
    }
}

/// The number of failures in `errors`, if no description has two entries and
/// no entry counts nothing; none otherwise.
pub fn count_failures(errors: &Vec<ErrorCount>) -> (count: Option<u128>)
    ensures
        match count {
            Some(n) => distinct(entries(errors@)) && n == failures(entries(errors@)),
            None => !distinct(entries(errors@)),
        },
{
    let ghost all = entries(errors@);
    let mut sum: u128 = 0;
    let mut j: usize = 0;
    assert(errors@.take(0) =~= Seq::<ErrorCount>::empty());
    assert(entries(Seq::<ErrorCount>::empty()) =~= Seq::<(Seq<char>, nat)>::empty());
    while j < errors.len()
        invariant
            j <= errors.len(),
            all == entries(errors@),
            sum == failures(entries(errors@.take(j as int))),
            forall|a: int, b: int| 0 <= a < b < j ==> all[a].0 != all[b].0,
            forall|a: int| 0 <= a < j ==> (#[trigger] all[a]).1 > 0,
        decreases errors.len() - j,
    {
        if errors[j].count == 0 {
            assert(all[j as int].1 == 0);
            return None;
        }
        let mut i: usize = 0;
        while i < j
            invariant
                i <= j < errors.len(),
                all == entries(errors@),
                forall|a: int| 0 <= a < i ==> (#[trigger] all[a]).0 != all[j as int].0,
            decreases j - i,
        {
            if errors[i].description == errors[j].description {
                assert(all[i as int].0 == all[j as int].0);
                return None;
            }
            assert(all[i as int].0 != all[j as int].0);
            i += 1;
        }
        proof {
            let before = errors@.take(j as int);
            let after = errors@.take(j + 1);
            assert(entries(after).drop_last() =~= entries(before));
            assert(entries(after).last().1 == errors[j as int].count);
            lemma_failures_bound(after);
            assert((j + 1) * u64::MAX <= u64::MAX * u64::MAX) by (nonlinear_arith)
                requires
                    0 <= j + 1 <= u64::MAX,
            ;
        }
        sum = sum + (errors[j].count as u128);
        j += 1;
    }
    assert(errors@.take(j as int) =~= errors@);
    Some(sum)
}

} // verus!
