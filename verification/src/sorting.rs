//! Stable sorting of readings by their instants.

use crate::timestamp::Timestamp;
use crate::weight::{
    chronological, lemma_chronological_with_later, lemma_chronological_without_last,
    WeightLogEntry,
};
use vstd::prelude::*;

verus! {

/// `entry` put into `entries` behind every reading that was not taken after
/// it, and so behind those taken at the same instant.
pub open spec fn placed(entries: Seq<WeightLogEntry>, entry: WeightLogEntry) -> Seq<
    WeightLogEntry,
>
    decreases entries.len(),
{
    if entries.len() == 0 || entries.last().timestamp.not_after(entry.timestamp) {
        entries.push(entry)
    } else {
        placed(entries.drop_last(), entry).push(entries.last())
    }
}

/// The readings in chronological order, those of one instant in the order
/// in which they stood.
pub open spec fn stable_sorted(entries: Seq<WeightLogEntry>) -> Seq<WeightLogEntry>
    decreases entries.len(),
{
    if entries.len() == 0 {
        entries
    } else {
        placed(stable_sorted(entries.drop_last()), entries.last())
    }
}

/// Sorts the readings by instant, keeping those of one instant in order.
pub fn sort_stably(entries: &mut Vec<WeightLogEntry>)
    ensures
        final(entries)@ == stable_sorted(old(entries)@),
{
    let ghost orig = entries@;
    let n = entries.len();
    let mut i: usize = 0;
    assert(entries@.take(0) =~= stable_sorted(orig.take(0)));
    while i < n
        invariant
            0 <= i <= n,
            entries@.len() == n,
            orig.len() == n,
            entries@.take(i as int) == stable_sorted(orig.take(i as int)),
            entries@.skip(i as int) == orig.skip(i as int),
        decreases n - i,
    {
        let entry = entries[i];
        let ghost prefix = entries@.take(i as int);
        let mut j: usize = i;
        proof {
            assert(entry == orig.skip(i as int)[0]);
            assert(prefix.take(j as int) =~= prefix);
            assert(prefix.skip(j as int) =~= Seq::<WeightLogEntry>::empty());
            assert(placed(prefix, entry) =~= placed(prefix.take(j as int), entry) + prefix.skip(
                j as int,
            ));
            assert(entries@.take(i + 1) =~= prefix.take(j as int).push(entry) + prefix.skip(
                j as int,
            ));
            assert(entries@.skip(i + 1) =~= orig.skip(i + 1)) by {
                assert(entries@.skip(i + 1) =~= entries@.skip(i as int).skip(1));
                assert(orig.skip(i + 1) =~= orig.skip(i as int).skip(1));
            }
        }
        while j > 0 && entry.timestamp.is_before(&entries[j - 1].timestamp)
            invariant
                0 <= j <= i < n,
                entries@.len() == n,
                prefix.len() == i,
                entries@.skip(i + 1) == orig.skip(i + 1),
                entries@.take(i + 1) == prefix.take(j as int).push(entry) + prefix.skip(j as int),
                placed(prefix, entry) == placed(prefix.take(j as int), entry) + prefix.skip(
                    j as int,
                ),
            decreases j,
        {
            let ghost before = entries@;
            let earlier = entries[j - 1];
            proof {
                assert(before.take(i + 1)[j - 1] == before[j - 1]);
                assert(earlier == prefix[j - 1]);
            }
            entries.set(j, earlier);
            entries.set(j - 1, entry);
            proof {
                let head = prefix.take(j as int);
                assert(head.drop_last() =~= prefix.take(j - 1));
                assert(head.last() == earlier);
                assert(placed(head, entry) == placed(prefix.take(j - 1), entry).push(earlier));
                assert(prefix.skip(j - 1) =~= seq![earlier] + prefix.skip(j as int));
                assert(placed(prefix, entry) =~= placed(prefix.take(j - 1), entry) + prefix.skip(
                    j - 1,
                ));
                assert(entries@.take(i + 1) =~= prefix.take(j - 1).push(entry) + prefix.skip(
                    j - 1,
                )) by {
                    let now = entries@.take(i + 1);
                    let was = before.take(i + 1);
                    assert forall|k: int| 0 <= k < i + 1 implies now[k] == (prefix.take(
                        j - 1,
                    ).push(entry) + prefix.skip(j - 1))[k] by {
                        assert(was[k] == before[k]);
                        if k != j && k != j - 1 {
                            assert(now[k] == was[k]);
                        }
                    }
                }
                assert(entries@.skip(i + 1) =~= before.skip(i + 1));
            }
            j = j - 1;
        }
        proof {
            let head = prefix.take(j as int);
            if j > 0 {
                assert(entries@.take(i + 1)[j - 1] == entries@[j - 1]);
                assert(head.last() == entries@[j - 1]);
            }
            assert(placed(head, entry) == head.push(entry));
            assert(orig.take(i + 1).drop_last() =~= orig.take(i as int));
            assert(orig.take(i + 1).last() == entry);
        }
        i = i + 1;
    }
    proof {
        assert(entries@.take(n as int) =~= entries@);
        assert(orig.take(n as int) =~= orig);
    }
}

/// The readings among `entries` that were taken at `instant`, in their order.
pub open spec fn taken_at(entries: Seq<WeightLogEntry>, instant: Timestamp) -> Seq<
    WeightLogEntry,
> {
    entries.filter(|entry: WeightLogEntry| entry.timestamp == instant)
}

/// Placing a reading into chronological readings leaves them chronological.
pub proof fn lemma_placed_chronological(entries: Seq<WeightLogEntry>, entry: WeightLogEntry)
    requires
        chronological(entries),
    ensures
        chronological(placed(entries, entry)),
        placed(entries, entry).len() == entries.len() + 1,
        forall|k: int|
            0 <= k < placed(entries, entry).len() ==> #[trigger] placed(entries, entry)[k]
                == entry || entries.contains(placed(entries, entry)[k]),
    decreases entries.len(),
{
    let out = placed(entries, entry);
    if entries.len() == 0 || entries.last().timestamp.not_after(entry.timestamp) {
        lemma_chronological_with_later(entries, entry);
        assert forall|k: int| 0 <= k < out.len() implies #[trigger] out[k] == entry
            || entries.contains(out[k]) by {
            if k < entries.len() {
                assert(entries[k] == out[k]);
            }
        }
    } else {
        let rest = entries.drop_last();
        let last = entries.last();
        lemma_chronological_without_last(entries);
        lemma_placed_chronological(rest, entry);
        let inner = placed(rest, entry);
        assert forall|k: int| 0 <= k < out.len() implies #[trigger] out[k] == entry
            || entries.contains(out[k]) by {
            if k < inner.len() {
                assert(out[k] == inner[k]);
                if inner[k] != entry {
                    let w = choose|w: int| 0 <= w < rest.len() && rest[w] == inner[k];
                    assert(entries[w] == inner[k]);
                }
            } else {
                assert(entries[entries.len() - 1] == out[k]);
            }
        }
        assert forall|i: int, j: int| 0 <= i < j < out.len() implies (#[trigger] out[i])
            .timestamp.not_after((#[trigger] out[j]).timestamp) by {
            if j == inner.len() {
                assert(out[i] == inner[i]);
                if inner[i] != entry {
                    let w = choose|w: int| 0 <= w < rest.len() && rest[w] == inner[i];
                    assert(entries[w].timestamp.not_after(entries[entries.len() - 1].timestamp));
                }
            } else {
                assert(inner[i].timestamp.not_after(inner[j].timestamp));
            }
        }
    }
}

/// Placing a reading neither loses nor adds one, nor does it change the order
/// among the readings of any one instant.
pub proof fn lemma_placed_taken_at(
    entries: Seq<WeightLogEntry>,
    entry: WeightLogEntry,
    instant: Timestamp,
)
    ensures
        taken_at(placed(entries, entry), instant) == taken_at(entries.push(entry), instant),
    decreases entries.len(),
{
    let at = |e: WeightLogEntry| e.timestamp == instant;
    if entries.len() == 0 || entries.last().timestamp.not_after(entry.timestamp) {
    } else {
        let rest = entries.drop_last();
        let last = entries.last();
        lemma_placed_taken_at(rest, entry, instant);
        placed(rest, entry).lemma_filter_push(last, at);
        rest.lemma_filter_push(entry, at);
        rest.lemma_filter_push(last, at);
        entries.lemma_filter_push(entry, at);
        assert(rest.push(last) =~= entries);
        assert(!(at(last) && at(entry)));
    }
}

/// What `stable_sorted` gives is in chronological order and as long as what
/// it was given.
pub proof fn law_sorted_is_chronological(entries: Seq<WeightLogEntry>)
    ensures
        chronological(stable_sorted(entries)),
        stable_sorted(entries).len() == entries.len(),
    decreases entries.len(),
{
    if entries.len() > 0 {
        law_sorted_is_chronological(entries.drop_last());
        lemma_placed_chronological(stable_sorted(entries.drop_last()), entries.last());
    }
}

/// Sorting is stable and is a rearrangement: the readings of each instant
/// are the same before and after, and in the same order.
pub proof fn law_sorted_keeps_each_instant(entries: Seq<WeightLogEntry>, instant: Timestamp)
    ensures
        taken_at(stable_sorted(entries), instant) == taken_at(entries, instant),
    decreases entries.len(),
{
    if entries.len() > 0 {
        let at = |e: WeightLogEntry| e.timestamp == instant;
        let rest = entries.drop_last();
        law_sorted_keeps_each_instant(rest, instant);
        lemma_placed_taken_at(stable_sorted(rest), entries.last(), instant);
        stable_sorted(rest).lemma_filter_push(entries.last(), at);
        rest.lemma_filter_push(entries.last(), at);
        assert(rest.push(entries.last()) =~= entries);
    }
}

/// Sorting keeps every reading as often as it occurred.
pub proof fn law_sorted_is_permutation(entries: Seq<WeightLogEntry>)
    ensures
        stable_sorted(entries).to_multiset() == entries.to_multiset(),
    decreases entries.len(),
{
    if entries.len() > 0 {
        let rest = entries.drop_last();
        law_sorted_is_permutation(rest);
        lemma_placed_permutation(stable_sorted(rest), entries.last());
        vstd::seq_lib::to_multiset_build(stable_sorted(rest), entries.last());
        vstd::seq_lib::to_multiset_build(rest, entries.last());
        assert(rest.push(entries.last()) =~= entries);
    }
}

proof fn lemma_placed_permutation(entries: Seq<WeightLogEntry>, entry: WeightLogEntry)
    ensures
        placed(entries, entry).to_multiset() == entries.push(entry).to_multiset(),
    decreases entries.len(),
{
    if entries.len() == 0 || entries.last().timestamp.not_after(entry.timestamp) {
    } else {
        let rest = entries.drop_last();
        let last = entries.last();
        lemma_placed_permutation(rest, entry);
        vstd::seq_lib::to_multiset_build(placed(rest, entry), last);
        vstd::seq_lib::to_multiset_build(rest, entry);
        vstd::seq_lib::to_multiset_build(rest, last);
        vstd::seq_lib::to_multiset_build(entries, entry);
        assert(rest.push(last) =~= entries);
        assert(rest.to_multiset().insert(entry).insert(last) =~= rest.to_multiset().insert(
            last,
        ).insert(entry));
    }
}

/// Readings that stand in chronological order are left as they are.
pub proof fn law_sorted_of_chronological(entries: Seq<WeightLogEntry>)
    requires
        chronological(entries),
    ensures
        stable_sorted(entries) == entries,
    decreases entries.len(),
{
    if entries.len() > 0 {
        let rest = entries.drop_last();
        lemma_chronological_without_last(entries);
        law_sorted_of_chronological(rest);
        if rest.len() > 0 {
            assert(entries[rest.len() - 1].timestamp.not_after(
                entries[entries.len() - 1].timestamp,
            ));
            assert(rest.last() == entries[rest.len() - 1]);
        }
        assert(rest.push(entries.last()) =~= entries);
    }
}

/// Where some readings were taken at an instant, one of them can be named.
proof fn lemma_taken_at_witness(entries: Seq<WeightLogEntry>, instant: Timestamp)
    requires
        taken_at(entries, instant).len() > 0,
    ensures
        exists|k: int| 0 <= k < entries.len() && (#[trigger] entries[k]).timestamp == instant,
    decreases entries.len(),
{
    let at = |e: WeightLogEntry| e.timestamp == instant;
    entries.lemma_filter_len(at);
    let rest = entries.drop_last();
    assert(rest.push(entries.last()) =~= entries);
    rest.lemma_filter_push(entries.last(), at);
    if entries.last().timestamp == instant {
        assert(entries[entries.len() - 1].timestamp == instant);
    } else {
        lemma_taken_at_witness(rest, instant);
        let k = choose|k: int| 0 <= k < rest.len() && (#[trigger] rest[k]).timestamp == instant;
        assert(entries[k].timestamp == instant);
    }
}

/// What holds of the last of some readings: it is the last of those taken at
/// its instant, and without it those of every instant are as before, less
/// itself.
proof fn lemma_taken_at_last(entries: Seq<WeightLogEntry>, instant: Timestamp)
    requires
        entries.len() > 0,
    ensures
        entries.last().timestamp == instant ==> taken_at(entries, instant) == taken_at(
            entries.drop_last(),
            instant,
        ).push(entries.last()),
        entries.last().timestamp != instant ==> taken_at(entries, instant) == taken_at(
            entries.drop_last(),
            instant,
        ),
{
    let at = |e: WeightLogEntry| e.timestamp == instant;
    assert(entries.drop_last().push(entries.last()) =~= entries);
    entries.drop_last().lemma_filter_push(entries.last(), at);
}

/// There is one stable sort only: readings in chronological order are told
/// by the readings of each instant, in their order.
pub proof fn law_chronological_order_is_unique(a: Seq<WeightLogEntry>, b: Seq<WeightLogEntry>)
    requires
        chronological(a),
        chronological(b),
        forall|instant: Timestamp| #[trigger] taken_at(a, instant) == taken_at(b, instant),
    ensures
        a == b,
    decreases a.len() + b.len(),
{
    if a.len() == 0 && b.len() == 0 {
        assert(a =~= b);
    } else {
        // Both hold a reading: the instant of the last of either is one of
        // the other's too.
        if a.len() > 0 {
            lemma_taken_at_last(a, a.last().timestamp);
            assert(taken_at(b, a.last().timestamp).len() > 0);
            lemma_taken_at_witness(b, a.last().timestamp);
        } else {
            lemma_taken_at_last(b, b.last().timestamp);
            assert(taken_at(a, b.last().timestamp).len() > 0);
            lemma_taken_at_witness(a, b.last().timestamp);
        }
        let t = a.last().timestamp;
        let u = b.last().timestamp;
        lemma_taken_at_last(a, t);
        lemma_taken_at_last(b, u);
        assert(taken_at(b, t).len() > 0);
        assert(taken_at(a, u).len() > 0);
        lemma_taken_at_witness(b, t);
        lemma_taken_at_witness(a, u);
        let i = choose|k: int| 0 <= k < b.len() && (#[trigger] b[k]).timestamp == t;
        let j = choose|k: int| 0 <= k < a.len() && (#[trigger] a[k]).timestamp == u;
        assert(t.not_after(u)) by {
            if i < b.len() - 1 {
                assert(b[i].timestamp.not_after(b[b.len() - 1].timestamp));
            }
        }
        assert(u.not_after(t)) by {
            if j < a.len() - 1 {
                assert(a[j].timestamp.not_after(a[a.len() - 1].timestamp));
            }
        }
        assert(t == u);
        assert(a.last() == taken_at(a, t).last());
        assert(b.last() == taken_at(b, t).last());
        let a_rest = a.drop_last();
        let b_rest = b.drop_last();
        assert forall|instant: Timestamp| #[trigger]
            taken_at(a_rest, instant) == taken_at(b_rest, instant) by {
            lemma_taken_at_last(a, instant);
            lemma_taken_at_last(b, instant);
            assert(taken_at(a, instant) == taken_at(b, instant));
            if instant == t {
                assert(taken_at(a_rest, instant) =~= taken_at(a, instant).drop_last());
                assert(taken_at(b_rest, instant) =~= taken_at(b, instant).drop_last());
            }
        }
        lemma_chronological_without_last(a);
        lemma_chronological_without_last(b);
        law_chronological_order_is_unique(a_rest, b_rest);
        assert(a =~= a_rest.push(a.last()));
        assert(b =~= b_rest.push(b.last()));
    }
}

/// `stable_sorted` is the stable sort: whatever is in chronological order and
/// holds the readings of each instant as `entries` does, in the same order,
/// is `stable_sorted(entries)`.
pub proof fn law_stable_sort_is_unique(entries: Seq<WeightLogEntry>, sorted: Seq<WeightLogEntry>)
    requires
        chronological(sorted),
        forall|instant: Timestamp| #[trigger] taken_at(sorted, instant) == taken_at(entries, instant),
    ensures
        sorted == stable_sorted(entries),
{
    law_sorted_is_chronological(entries);
    assert forall|instant: Timestamp| #[trigger]
        taken_at(sorted, instant) == taken_at(stable_sorted(entries), instant) by {
        law_sorted_keeps_each_instant(entries, instant);
    }
    law_chronological_order_is_unique(sorted, stable_sorted(entries));
}

} // verus!
