//! Counts of language features. Each feature that a covered region shows is
//! counted under two labels: how often it was seen, and how often it ran.

use vstd::prelude::*;
use crate::text::{append, string_of, to_chars};

verus! {

/// Counts by label.
#[derive(Debug, Clone)]
pub struct FeatureCounter {
    /// The labels counted so far, each with its count, in the order in which
    /// they first came.
    pub entries: Vec<(String, u64)>,
}

/// The count that stands under `label` in `entries`: that of the first entry
/// with this label.
pub open spec fn lookup(entries: Seq<(String, u64)>, label: Seq<char>) -> Option<u64>
    decreases entries.len(),
{
    if entries.len() == 0 {
        None
    } else if entries[0].0@ == label {
        Some(entries[0].1)
    } else {
        lookup(entries.drop_first(), label)
    }
}

/// `a` and `b` added, or the largest count where the sum is beyond it.
pub open spec fn saturating_sum(a: u64, b: u64) -> u64 {
    if a + b > u64::MAX {
        u64::MAX
    } else {
        (a + b) as u64
    }
}

/// The count under a label after `amount` was counted for it: a label that
/// is new gets `first`, one that is known gets `amount` more.
pub open spec fn counted(known: Option<u64>, amount: u64, first: u64) -> u64 {
    match known {
        Some(n) => saturating_sum(n, amount),
        None => first,
    }
}

/// The label under which the sightings of `feature` are counted.
pub open spec fn seen_label(feature: Seq<char>) -> Seq<char> {
    "count_"@ + feature
}

/// The label under which the runs of `feature` are counted.
pub open spec fn run_label(feature: Seq<char>) -> Seq<char> {
    "once_"@ + feature
}

proof fn lemma_lookup_at(entries: Seq<(String, u64)>, label: Seq<char>, i: int)
    requires
        0 <= i < entries.len(),
        entries[i].0@ == label,
        forall|j: int| 0 <= j < i ==> (#[trigger] entries[j]).0@ != label,
    ensures
        lookup(entries, label) == Some(entries[i].1),
    decreases i,
{
    if i > 0 {
        lemma_lookup_at(entries.drop_first(), label, i - 1);
    }
}

proof fn lemma_lookup_none(entries: Seq<(String, u64)>, label: Seq<char>)
    requires
        forall|j: int| 0 <= j < entries.len() ==> (#[trigger] entries[j]).0@ != label,
    ensures
        lookup(entries, label) is None,
    decreases entries.len(),
{
    if entries.len() > 0 {
        lemma_lookup_none(entries.drop_first(), label);
    }
}

proof fn lemma_lookup_after_update(
    entries: Seq<(String, u64)>,
    i: int,
    entry: (String, u64),
    label: Seq<char>,
)
    requires
        0 <= i < entries.len(),
        entry.0@ == entries[i].0@,
    ensures
        lookup(entries.update(i, entry), label) == if lookup(entries, label) is Some
            && entries[i].0@ == label && (forall|j: int|
            0 <= j < i ==> (#[trigger] entries[j]).0@ != label) {
            Some(entry.1)
        } else {
            lookup(entries, label)
        },
    decreases entries.len(),
{
    let updated = entries.update(i, entry);
    if i == 0 {
        assert(updated.drop_first() =~= entries.drop_first());
    } else {
        assert(updated.drop_first() =~= entries.drop_first().update(i - 1, entry));
        lemma_lookup_after_update(entries.drop_first(), i - 1, entry, label);
        if entries[0].0@ != label {
            assert forall|j: int| 0 <= j < i - 1 implies (#[trigger] entries.drop_first()[j]).0@
                != label <==> entries[j + 1].0@ != label by {}
            if forall|j: int| 0 <= j < i ==> (#[trigger] entries[j]).0@ != label {
                assert forall|j: int| 0 <= j < i - 1 implies (#[trigger] entries.drop_first()[j]).0@
                    != label by {
                    assert(entries.drop_first()[j] == entries[j + 1]);
                }
            } else {
                let j = choose|j: int| 0 <= j < i && (#[trigger] entries[j]).0@ == label;
                assert(j > 0);
                assert(entries.drop_first()[j - 1] == entries[j]);
            }
        }
    }
}

proof fn lemma_lookup_after_push(
    entries: Seq<(String, u64)>,
    entry: (String, u64),
    label: Seq<char>,
)
    ensures
        lookup(entries.push(entry), label) == match lookup(entries, label) {
            Some(n) => Some(n),
            None => if entry.0@ == label {
                Some(entry.1)
            } else {
                None
            },
        },
    decreases entries.len(),
{
    let pushed = entries.push(entry);
    if entries.len() == 0 {
        assert(pushed[0] == entry);
        assert(pushed.drop_first() =~= Seq::<(String, u64)>::empty());
        assert(lookup(pushed.drop_first(), label) is None);
    } else {
        assert(pushed[0] == entries[0]);
        assert(pushed.drop_first() =~= entries.drop_first().push(entry));
        lemma_lookup_after_push(entries.drop_first(), entry, label);
    }
}

impl FeatureCounter {
    /// The count under `label`, if the label was counted.
    pub open spec fn count_of(&self, label: Seq<char>) -> Option<u64> {
        lookup(self.entries@, label)
    }

    /// A counter that has counted nothing.
    pub fn new() -> (counter: FeatureCounter)
        ensures
            forall|label: Seq<char>| counter.count_of(label) is None,
    {
        FeatureCounter { entries: Vec::new() }
    }

    /// The count under `label`, if the label was counted.
    pub fn get(&self, label: &str) -> (count: Option<u64>)
        ensures
            count == self.count_of(label@),
    {
        let mut i: usize = 0;
        while i < self.entries.len()
            invariant
                i <= self.entries.len(),
                forall|j: int| 0 <= j < i ==> (#[trigger] self.entries@[j]).0@ != label@,
            decreases self.entries.len() - i,
        {
            if self.entries[i].0.as_str().eq(label) {
                proof {
                    lemma_lookup_at(self.entries@, label@, i as int);
                }
                return Some(self.entries[i].1);
            }
            i += 1;
        }
        proof {
            lemma_lookup_none(self.entries@, label@);
        }
        None
    }

    /// Counts `amount` under `label`: a label that is new is entered with
    /// `first`, one that is known is raised by `amount`, as far as counts
    /// go. No other label is touched.
    pub fn raise(&mut self, label: &str, amount: u64, first: u64)
        ensures
            forall|other: Seq<char>|
                #[trigger] final(self).count_of(other) == if other == label@ {
                    Some(counted(old(self).count_of(label@), amount, first))
                } else {
                    old(self).count_of(other)
                },
    {
        let ghost before = self.entries@;
        let mut i: usize = 0;
        while i < self.entries.len()
            invariant
                i <= self.entries.len(),
                self.entries@ == before,
                before == old(self).entries@,
                forall|j: int| 0 <= j < i ==> (#[trigger] self.entries@[j]).0@ != label@,
            decreases self.entries.len() - i,
        {
            if self.entries[i].0.as_str().eq(label) {
                let n = self.entries[i].1;
                let sum = if n > u64::MAX - amount {
                    u64::MAX
                } else {
                    n + amount
                };
                let entry = (label.to_owned(), sum);
                self.entries.set(i, entry);
                proof {
                    lemma_lookup_at(before, label@, i as int);
                    assert(self.entries@ =~= before.update(i as int, entry));
                    assert forall|other: Seq<char>|
                        #[trigger] self.count_of(other) == if other == label@ {
                            Some(counted(lookup(before, label@), amount, first))
                        } else {
                            lookup(before, other)
                        } by {
                        lemma_lookup_after_update(before, i as int, entry, other);
                    }
                }
                return ;
            }
            i += 1;
        }
        let entry = (label.to_owned(), first);
        self.entries.push(entry);
        proof {
            lemma_lookup_none(before, label@);
            assert(self.entries@ =~= before.push(entry));
            assert forall|other: Seq<char>|
                #[trigger] self.count_of(other) == if other == label@ {
                    Some(counted(lookup(before, label@), amount, first))
                } else {
                    lookup(before, other)
                } by {
                lemma_lookup_after_push(before, entry, other);
            }
        }
    }

    /// Counts one sighting of `feature` in a region that ran `runs` times.
    ///
    /// The sightings stand under the feature's name behind `count_`, the runs
    /// under its name behind `once_`. Each of the two is entered with zero
    /// when the feature is first seen; from then on a sighting adds one to
    /// the first and `runs` to the second, as far as counts go.
    pub fn count(&mut self, feature: &str, runs: u64)
        ensures
            forall|other: Seq<char>|
                #[trigger] final(self).count_of(other) == if other == seen_label(feature@) {
                    Some(counted(old(self).count_of(seen_label(feature@)), 1, 0))
                } else if other == run_label(feature@) {
                    Some(counted(old(self).count_of(run_label(feature@)), runs, 0))
                } else {
                    old(self).count_of(other)
                },
    {
        proof {
            reveal_strlit("count_");
            reveal_strlit("once_");
        }
        let feature_chars = to_chars(feature);
        let mut seen = to_chars("count_");
        append(&mut seen, &feature_chars);
        let mut ran = to_chars("once_");
        append(&mut ran, &feature_chars);
        assert(seen@ =~= seen_label(feature@));
        assert(ran@ =~= run_label(feature@));
        assert(seen@[0] == 'c' && ran@[0] == 'o');
        assert(seen_label(feature@) != run_label(feature@));
        self.raise(string_of(&seen).as_str(), 1, 0);
        self.raise(string_of(&ran).as_str(), runs, 0);
    }

    /// Adds `value` to the count under `key`, as far as counts go; a key
    /// that is new is entered with `value`.
    pub fn add_or_insert(&mut self, key: &str, value: u64)
        ensures
            forall|other: Seq<char>|
                #[trigger] final(self).count_of(other) == if other == key@ {
                    Some(counted(old(self).count_of(key@), value, value))
                } else {
                    old(self).count_of(other)
                },
    {
        self.raise(key, value, value);
    }
}

} // verus!
