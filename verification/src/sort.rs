//! Sorting entries by descending size, by merging.

use vstd::prelude::*;
use vstd::seq_lib::{to_multiset_build, to_multiset_contains, to_multiset_insert};
use crate::entry::{
    entry_views, lemma_entry_views, lemma_sum_bytes_concat, sum_bytes, Entry, EntryView,
};

verus! {

/// How many entries at the head of `sorted` are no smaller than `bytes`.
pub open spec fn rank(sorted: Seq<EntryView>, bytes: nat) -> int
    decreases sorted.len(),
{
    if sorted.len() == 0 || sorted[0].bytes < bytes {
        0
    } else {
        1 + rank(sorted.drop_first(), bytes)
    }
}

/// `sorted` with `e` put behind the entries at its head that are no smaller.
pub open spec fn insert_desc(sorted: Seq<EntryView>, e: EntryView) -> Seq<EntryView> {
    sorted.insert(rank(sorted, e.bytes), e)
}

/// `entries` by descending size; entries of one size stay in their order.
pub open spec fn sort_desc(entries: Seq<EntryView>) -> Seq<EntryView>
    decreases entries.len(),
{
    if entries.len() == 0 {
        entries
    } else {
        insert_desc(sort_desc(entries.drop_last()), entries.last())
    }
}

/// Two sequences merged by descending size: at each step the larger of
/// the two entries in front goes first, and of two of one size the one of
/// `a`.
pub open spec fn merge_desc(a: Seq<EntryView>, b: Seq<EntryView>) -> Seq<EntryView>
    decreases a.len() + b.len(),
{
    if a.len() == 0 {
        b
    } else if b.len() == 0 {
        a
    } else if a[0].bytes >= b[0].bytes {
        seq![a[0]] + merge_desc(a.drop_first(), b)
    } else {
        seq![b[0]] + merge_desc(a, b.drop_first())
    }
}

/// Sizes never rise from one entry to the next.
pub open spec fn descending(entries: Seq<EntryView>) -> bool {
    forall|i: int, j: int| 0 <= i < j < entries.len() ==> entries[i].bytes >= entries[j].bytes
}

/// Sizes fall from each entry to the next.
pub open spec fn strictly_descending(entries: Seq<EntryView>) -> bool {
    forall|i: int, j: int| 0 <= i < j < entries.len() ==> entries[i].bytes > entries[j].bytes
}

/// No two entries have the same size.
pub open spec fn distinct_sizes(entries: Seq<EntryView>) -> bool {
    forall|i: int, j: int| 0 <= i < j < entries.len() ==> entries[i].bytes != entries[j].bytes
}

/// The rank lies within the sequence.
pub proof fn lemma_rank_bounds(sorted: Seq<EntryView>, bytes: nat)
    ensures
        0 <= rank(sorted, bytes) <= sorted.len(),
    decreases sorted.len(),
{
    if !(sorted.len() == 0 || sorted[0].bytes < bytes) {
        lemma_rank_bounds(sorted.drop_first(), bytes);
    }
}

/// Before the rank stand the entries that are no smaller, behind it the
/// smaller ones.
pub proof fn lemma_rank_parts(sorted: Seq<EntryView>, bytes: nat)
    requires
        descending(sorted),
    ensures
        0 <= rank(sorted, bytes) <= sorted.len(),
        forall|i: int| 0 <= i < rank(sorted, bytes) ==> sorted[i].bytes >= bytes,
        forall|i: int| rank(sorted, bytes) <= i < sorted.len() ==> sorted[i].bytes < bytes,
    decreases sorted.len(),
{
    if !(sorted.len() == 0 || sorted[0].bytes < bytes) {
        let rest = sorted.drop_first();
        assert(forall|i: int| 0 <= i < rest.len() ==> rest[i] == sorted[i + 1]);
        lemma_rank_parts(rest, bytes);
        assert forall|i: int| 0 <= i < rank(sorted, bytes) implies sorted[i].bytes >= bytes by {
            if i > 0 {
                assert(rest[i - 1] == sorted[i]);
            }
        }
        assert forall|i: int| rank(sorted, bytes) <= i < sorted.len() implies sorted[i].bytes
            < bytes by {
            assert(rest[i - 1] == sorted[i]);
        }
    }
}

/// Inserting keeps the order.
pub proof fn lemma_insert_desc(sorted: Seq<EntryView>, e: EntryView)
    requires
        descending(sorted),
    ensures
        descending(insert_desc(sorted, e)),
        insert_desc(sorted, e).to_multiset() == sorted.to_multiset().insert(e),
        insert_desc(sorted, e).len() == sorted.len() + 1,
{
    lemma_rank_parts(sorted, e.bytes);
    to_multiset_insert(sorted, rank(sorted, e.bytes), e);
}

/// Law: sorting yields the same entries, each as often as before, with
/// sizes never rising.
pub proof fn law_sort_desc(entries: Seq<EntryView>)
    ensures
        descending(sort_desc(entries)),
        sort_desc(entries).to_multiset() == entries.to_multiset(),
        sort_desc(entries).len() == entries.len(),
    decreases entries.len(),
{
    if entries.len() > 0 {
        law_sort_desc(entries.drop_last());
        lemma_insert_desc(sort_desc(entries.drop_last()), entries.last());
        to_multiset_build(entries.drop_last(), entries.last());
        assert(entries.drop_last().push(entries.last()) == entries);
    }
}

/// Law: where no two entries have the same size, sorting yields sizes
/// that fall from each entry to the next.
pub proof fn law_sort_desc_strict(entries: Seq<EntryView>)
    requires
        distinct_sizes(entries),
    ensures
        strictly_descending(sort_desc(entries)),
    decreases entries.len(),
{
    if entries.len() > 0 {
        let before = entries.drop_last();
        let sorted = sort_desc(before);
        let x = entries.last();
        assert(forall|i: int| 0 <= i < before.len() ==> before[i] == entries[i]);
        law_sort_desc_strict(before);
        law_sort_desc(before);
        lemma_rank_parts(sorted, x.bytes);
        assert forall|k: int| 0 <= k < sorted.len() implies (#[trigger] sorted[k]).bytes
            != x.bytes by {
            assert(sorted.contains(sorted[k]));
            to_multiset_contains(sorted, sorted[k]);
            to_multiset_contains(before, sorted[k]);
            let j = choose|j: int| 0 <= j < before.len() && before[j] == sorted[k];
            assert(entries[j].bytes != entries[entries.len() - 1].bytes);
        }
    }
}

/// Inserting an entry adds its size.
pub proof fn lemma_sum_bytes_insert(sorted: Seq<EntryView>, e: EntryView)
    ensures
        sum_bytes(insert_desc(sorted, e)) == sum_bytes(sorted) + e.bytes,
{
    lemma_rank_bounds(sorted, e.bytes);
    let at = rank(sorted, e.bytes);
    lemma_sum_bytes_concat(sorted.take(at).push(e), sorted.skip(at));
    lemma_sum_bytes_concat(sorted.take(at), sorted.skip(at));
    assert(sorted.take(at) + sorted.skip(at) == sorted);
    assert(sorted.take(at).push(e).drop_last() == sorted.take(at));
}

/// Sorting keeps the sum of the sizes.
pub proof fn lemma_sum_bytes_sort(entries: Seq<EntryView>)
    ensures
        sum_bytes(sort_desc(entries)) == sum_bytes(entries),
    decreases entries.len(),
{
    if entries.len() > 0 {
        lemma_sum_bytes_sort(entries.drop_last());
        lemma_sum_bytes_insert(sort_desc(entries.drop_last()), entries.last());
    }
}

/// Inserting, seen from the front: the entry goes first where the sequence
/// is empty or starts smaller, else into what follows the first.
pub proof fn lemma_insert_front(s: Seq<EntryView>, x: EntryView)
    ensures
        insert_desc(s, x) == if s.len() == 0 || s[0].bytes < x.bytes {
            seq![x] + s
        } else {
            seq![s[0]] + insert_desc(s.drop_first(), x)
        },
{
    if s.len() == 0 || s[0].bytes < x.bytes {
        assert(insert_desc(s, x) =~= seq![x] + s);
    } else {
        lemma_rank_bounds(s.drop_first(), x.bytes);
        assert(insert_desc(s, x) =~= seq![s[0]] + insert_desc(s.drop_first(), x));
    }
}

/// Inserting into a merged sequence is merging with the second sequence
/// after inserting into it.
#[verifier::rlimit(50)]
pub proof fn lemma_merge_insert(a: Seq<EntryView>, b: Seq<EntryView>, x: EntryView)
    ensures
        insert_desc(merge_desc(a, b), x) == merge_desc(a, insert_desc(b, x)),
    decreases a.len() + b.len(),
{
    lemma_insert_front(b, x);
    lemma_insert_front(merge_desc(a, b), x);
    if a.len() == 0 {
    } else if b.len() == 0 {
        lemma_merge_insert(a.drop_first(), b, x);
        lemma_insert_front(a, x);
        if a[0].bytes >= x.bytes {
            assert(merge_desc(a.drop_first(), b) == a.drop_first());
            assert(merge_desc(a, seq![x] + b) == seq![a[0]] + merge_desc(
                a.drop_first(),
                seq![x] + b,
            ));
        } else {
            assert((seq![x] + b).drop_first() == b);
        }
    } else if a[0].bytes >= b[0].bytes {
        let m = merge_desc(a.drop_first(), b);
        assert((seq![a[0]] + m).drop_first() == m);
        if a[0].bytes >= x.bytes {
            lemma_merge_insert(a.drop_first(), b, x);
        } else {
            assert((seq![x] + b).drop_first() == b);
        }
    } else {
        let m = merge_desc(a, b.drop_first());
        assert((seq![b[0]] + m).drop_first() == m);
        if b[0].bytes >= x.bytes {
            lemma_merge_insert(a, b.drop_first(), x);
            let rest = insert_desc(b.drop_first(), x);
            assert((seq![b[0]] + rest).drop_first() == rest);
        } else {
            assert((seq![x] + b).drop_first() == b);
        }
    }
}

/// Merging two sorted halves sorts the whole.
pub proof fn lemma_merge_sorts(a: Seq<EntryView>, b: Seq<EntryView>)
    ensures
        merge_desc(sort_desc(a), sort_desc(b)) == sort_desc(a + b),
    decreases b.len(),
{
    if b.len() == 0 {
        assert(a + b == a);
    } else {
        lemma_merge_sorts(a, b.drop_last());
        lemma_merge_insert(sort_desc(a), sort_desc(b.drop_last()), b.last());
        assert((a + b).drop_last() == a + b.drop_last());
    }
}

/// The views of two sequences of entries in a row.
pub proof fn lemma_entry_views_concat(a: Seq<Entry>, b: Seq<Entry>)
    ensures
        entry_views(a + b) == entry_views(a) + entry_views(b),
{
    lemma_entry_views(a);
    lemma_entry_views(b);
    lemma_entry_views(a + b);
    assert(entry_views(a + b) =~= entry_views(a) + entry_views(b));
}

/// The entries of `v`, from the last to the first.
fn reversed(v: Vec<Entry>) -> (r: Vec<Entry>)
    ensures
        r@ == v@.reverse(),
{
    let mut v = v;
    let mut r: Vec<Entry> = Vec::new();
    let ghost all = v@;
    while v.len() > 0
        invariant
            v.len() <= all.len(),
            v@ == all.take(v.len() as int),
            r@ == all.skip(v.len() as int).reverse(),
        decreases v.len(),
    {
        let ghost n = v.len() as int;
        let e: Entry = v.pop().unwrap();
        r.push(e);
        assert(r@ =~= all.skip(n - 1).reverse());
    }
    assert(all.skip(0) == all);
    r
}

/// Merges `a` and `b`, see [`merge_desc`].
#[verifier::rlimit(50)]
fn merge_entries(a: Vec<Entry>, b: Vec<Entry>) -> (merged: Vec<Entry>)
    ensures
        entry_views(merged@) == merge_desc(entry_views(a@), entry_views(b@)),
{
    let ghost wanted = merge_desc(entry_views(a@), entry_views(b@));
    let ghost first = a@;
    let ghost second = b@;
    // the next entry of each is the last of its reversal
    let mut a: Vec<Entry> = reversed(a);
    let mut b: Vec<Entry> = reversed(b);
    let mut merged: Vec<Entry> = Vec::new();
    proof {
        assert(a@.reverse() =~= first);
        assert(b@.reverse() =~= second);
        assert(entry_views(merged@) + wanted == wanted);
    }
    while a.len() > 0 || b.len() > 0
        invariant
            entry_views(merged@) + merge_desc(
                entry_views(a@.reverse()),
                entry_views(b@.reverse()),
            ) == wanted,
        decreases a.len() + b.len(),
    {
        let ghost left = a@.reverse();
        let ghost right = b@.reverse();
        let ghost done = merged@;
        proof {
            lemma_entry_views(left);
            lemma_entry_views(right);
        }
        let from_a: bool = if a.len() == 0 {
            false
        } else if b.len() == 0 {
            true
        } else {
            a[a.len() - 1].bytes >= b[b.len() - 1].bytes
        };
        let e: Entry = if from_a {
            a.pop().unwrap()
        } else {
            b.pop().unwrap()
        };
        merged.push(e);
        proof {
            lemma_entry_views_concat(done, seq![e]);
            assert(merged@ == done + seq![e]);
            assert(entry_views(seq![e]) =~= seq![e@]) by {
                lemma_entry_views(seq![e]);
            }
            if from_a {
                assert(a@.reverse() =~= left.drop_first());
                assert(entry_views(left.drop_first()) =~= entry_views(left).drop_first()) by {
                    lemma_entry_views(left.drop_first());
                }
                assert(left[0] == e);
            } else {
                assert(b@.reverse() =~= right.drop_first());
                assert(entry_views(right.drop_first()) =~= entry_views(right).drop_first()) by {
                    lemma_entry_views(right.drop_first());
                }
                assert(right[0] == e);
            }
            let rest = merge_desc(entry_views(a@.reverse()), entry_views(b@.reverse()));
            assert(merge_desc(entry_views(left), entry_views(right)) == seq![e@] + rest);
            assert(entry_views(merged@) + rest =~= entry_views(done) + (seq![e@] + rest));
        }
    }
    assert(entry_views(merged@) + Seq::<EntryView>::empty() == entry_views(merged@));
    merged
}

/// Sorts `v` by descending size, see [`sort_desc`]: entries of one size
/// stay in their order.
pub fn sort_entries(v: Vec<Entry>) -> (sorted: Vec<Entry>)
    ensures
        entry_views(sorted@) == sort_desc(entry_views(v@)),
    decreases v.len(),
{
    if v.len() <= 1 {
        proof {
            lemma_entry_views(v@);
            if v.len() == 1 {
                let views = entry_views(v@);
                assert(sort_desc(views.drop_last()) == Seq::<EntryView>::empty());
                assert(insert_desc(Seq::<EntryView>::empty(), views.last()) =~= views);
            }
        }
        return v;
    }
    let ghost all = v@;
    let mut left: Vec<Entry> = v;
    let right: Vec<Entry> = left.split_off(left.len() / 2);
    proof {
        assert(all == left@ + right@);
        lemma_entry_views_concat(left@, right@);
        lemma_merge_sorts(entry_views(left@), entry_views(right@));
    }
    let left: Vec<Entry> = sort_entries(left);
    let right: Vec<Entry> = sort_entries(right);
    merge_entries(left, right)
}

} // verus!
