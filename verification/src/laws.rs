//! What holds of every result tree.

use vstd::prelude::*;
use vstd::seq_lib::{to_multiset_build, to_multiset_contains};
use crate::config::Config;
use crate::entry::{
    aggregate, arranged, built, folded_bytes, folds, kept, lemma_sum_bytes_arranged,
    lemma_sum_bytes_mark_last, lemma_sum_bytes_split, lined_up, mark_last, root_entries,
    sum_bytes, Entry, EntryView, AGGREGATE_NAME,
};
use crate::sort::{
    descending, distinct_sizes, law_sort_desc, law_sort_desc_strict, lemma_sum_bytes_sort,
    sort_desc, strictly_descending,
};
use crate::node::{sum_total_size, FsNode};
use crate::text::texts;

verus! {

/// What is kept holds each entry that is not folded as often as it was
/// built, and no entry that is folded.
pub proof fn lemma_kept_count(children: Seq<EntryView>, aggr: u64, x: EntryView)
    ensures
        kept(children, aggr).to_multiset().count(x) == if folds(x.bytes, aggr) {
            0
        } else {
            children.to_multiset().count(x)
        },
        kept(children, aggr).len() <= children.len(),
    decreases children.len(),
{
    broadcast use vstd::multiset::group_multiset_axioms;

    if children.len() == 0 {
        assert(children.to_multiset().count(x) == 0) by {
            to_multiset_contains(children, x);
        }
    } else {
        let before = children.drop_last();
        lemma_kept_count(before, aggr, x);
        to_multiset_build(before, children.last());
        assert(before.push(children.last()) == children);
        if !folds(children.last().bytes, aggr) {
            to_multiset_build(kept(before, aggr), children.last());
        }
    }
}

/// Where nothing is folded, everything is kept as it stands.
pub proof fn lemma_kept_all(children: Seq<EntryView>, aggr: u64)
    requires
        forall|i: int| 0 <= i < children.len() ==> !folds(#[trigger] children[i].bytes, aggr),
    ensures
        kept(children, aggr) == children,
        folded_bytes(children, aggr) == 0,
    decreases children.len(),
{
    if children.len() > 0 {
        let before = children.drop_last();
        assert(forall|i: int| 0 <= i < before.len() ==> before[i] == children[i]);
        lemma_kept_all(before, aggr);
        assert(before.push(children.last()) == children);
    }
}

/// How many entries stand before the aggregate, or in all where there is
/// none.
pub open spec fn visible(children: Seq<EntryView>, aggr: u64) -> int {
    kept(children, aggr).len() as int
}

/// Law of the order of siblings. Lined up, the entries that were kept come
/// first, with sizes never rising, and falling where no two of them have
/// the same size. Where anything was folded, the aggregate follows as the
/// final entry, whatever its size; else nothing follows.
pub proof fn law_sibling_order(children: Seq<EntryView>, aggr: u64)
    ensures
        ({
            let shown = lined_up(children, aggr);
            let n = visible(children, aggr);
            &&& descending(shown.take(n))
            &&& distinct_sizes(kept(children, aggr)) ==> strictly_descending(shown.take(n))
            &&& folded_bytes(children, aggr) > 0 ==> shown.len() == n + 1 && shown.last()
                == aggregate(folded_bytes(children, aggr))
            &&& folded_bytes(children, aggr) == 0 ==> shown.len() == n
        }),
{
    let sorted = sort_desc(kept(children, aggr));
    law_sort_desc(kept(children, aggr));
    assert(lined_up(children, aggr).take(visible(children, aggr)) == sorted);
    if distinct_sizes(kept(children, aggr)) {
        law_sort_desc_strict(kept(children, aggr));
    }
}

/// Law of aggregation. With a threshold set, a child is folded if and only
/// if it is smaller than the threshold: the entries before the aggregate are
/// the children that are not smaller, each as often as it was built. The
/// aggregate weighs what the folded children weigh together, so that kept
/// and folded make up the whole. Where no child is smaller than the
/// threshold there is no aggregate, and the siblings are the children.
pub proof fn law_aggregation(children: Seq<EntryView>, aggr: u64)
    requires
        aggr > 0,
    ensures
        ({
            let shown = lined_up(children, aggr);
            let n = visible(children, aggr);
            let folded = folded_bytes(children, aggr);
            &&& forall|x: EntryView| #[trigger]
                shown.take(n).to_multiset().count(x) == if x.bytes < aggr {
                    0
                } else {
                    children.to_multiset().count(x)
                }
            &&& folded > 0 ==> shown.len() == n + 1 && shown.last().bytes == folded
                && shown.last().name == AGGREGATE_NAME@
            &&& sum_bytes(shown.take(n)) + folded == sum_bytes(children)
            &&& (forall|i: int| 0 <= i < children.len() ==> children[i].bytes >= aggr) ==> shown.len()
                == children.len() && shown.to_multiset() == children.to_multiset()
        }),
{
    let stay = kept(children, aggr);
    let sorted = sort_desc(stay);
    law_sort_desc(stay);
    assert(lined_up(children, aggr).take(visible(children, aggr)) == sorted);
    assert forall|x: EntryView| #[trigger]
        sorted.to_multiset().count(x) == if x.bytes < aggr {
            0
        } else {
            children.to_multiset().count(x)
        } by {
        lemma_kept_count(children, aggr, x);
    }
    lemma_sum_bytes_sort(stay);
    lemma_sum_bytes_split(children, aggr);
    if forall|i: int| 0 <= i < children.len() ==> children[i].bytes >= aggr {
        lemma_kept_all(children, aggr);
    }
}

/// `p` holds of every sequence of siblings in the tree below `e`.
pub open spec fn everywhere(e: EntryView, p: spec_fn(Seq<EntryView>) -> bool) -> bool
    decreases e,
{
    match e.entries {
        None => true,
        Some(s) => p(s) && forall|i: int| 0 <= i < s.len() ==> everywhere(#[trigger] s[i], p),
    }
}

/// No entry is marked as last.
pub open spec fn unmarked(entries: Seq<EntryView>) -> bool {
    forall|i: int| 0 <= i < entries.len() ==> !(#[trigger] entries[i]).last
}

/// The two entries differ at most in the mark.
pub open spec fn same_but_mark(a: EntryView, b: EntryView) -> bool {
    a == EntryView { last: a.last, ..b }
}

/// Every sibling lined up is one of the children or the aggregate.
pub proof fn lemma_lined_up_members(children: Seq<EntryView>, aggr: u64, k: int)
    requires
        0 <= k < lined_up(children, aggr).len(),
    ensures
        lined_up(children, aggr)[k] == aggregate(folded_bytes(children, aggr)) || exists|j: int|
            0 <= j < children.len() && lined_up(children, aggr)[k] == children[j],
{
    let stay = kept(children, aggr);
    let sorted = sort_desc(stay);
    law_sort_desc(stay);
    if k < sorted.len() {
        let x = sorted[k];
        assert(lined_up(children, aggr)[k] == x);
        assert(sorted.contains(x));
        to_multiset_contains(sorted, x);
        to_multiset_contains(stay, x);
        lemma_kept_count(children, aggr, x);
        to_multiset_contains(children, x);
        let j = choose|j: int| 0 <= j < children.len() && children[j] == x;
        assert(lined_up(children, aggr)[k] == children[j]);
    }
}

/// Every sibling shown is one of the children or the aggregate, but for the
/// mark.
pub proof fn lemma_arranged_members(children: Seq<EntryView>, aggr: u64, k: int)
    requires
        0 <= k < arranged(children, aggr).len(),
    ensures
        same_but_mark(arranged(children, aggr)[k], aggregate(folded_bytes(children, aggr)))
            || exists|j: int|
            0 <= j < children.len() && same_but_mark(arranged(children, aggr)[k], children[j]),
{
    lemma_lined_up_members(children, aggr, k);
    let lined = lined_up(children, aggr);
    assert(same_but_mark(arranged(children, aggr)[k], lined[k]));
    if lined[k] != aggregate(folded_bytes(children, aggr)) {
        let j = choose|j: int| 0 <= j < children.len() && lined[k] == children[j];
        assert(same_but_mark(arranged(children, aggr)[k], children[j]));
    }
}

/// What holds of every arrangement of unmarked children whose own trees it
/// holds in, holds everywhere in the tree of a node.
pub proof fn lemma_everywhere(
    node: &FsNode,
    cfg: &Config,
    depth: u8,
    p: spec_fn(Seq<EntryView>) -> bool,
)
    requires
        forall|children: Seq<EntryView>, aggr: u64|
            unmarked(children) ==> #[trigger] p(arranged(children, aggr)),
    ensures
        everywhere(Entry::of(node, cfg, depth), p),
        !Entry::of(node, cfg, depth).last,
    decreases node, 1nat,
{
    if cfg.expands(node, depth) {
        let children = built(node.entries->0@, cfg, cfg.below(depth));
        lemma_everywhere_built(node.entries->0@, cfg, cfg.below(depth), p);
        let shown = arranged(children, cfg.aggr);
        assert forall|k: int| 0 <= k < shown.len() implies everywhere(#[trigger] shown[k], p) by {
            lemma_arranged_members(children, cfg.aggr, k);
            if !same_but_mark(shown[k], aggregate(folded_bytes(children, cfg.aggr))) {
                let j = choose|j: int|
                    0 <= j < children.len() && same_but_mark(shown[k], children[j]);
                assert(everywhere(children[j], p));
            }
        }
    }
}

/// See [`lemma_everywhere`].
pub proof fn lemma_everywhere_built(
    nodes: Seq<FsNode>,
    cfg: &Config,
    depth: u8,
    p: spec_fn(Seq<EntryView>) -> bool,
)
    requires
        forall|children: Seq<EntryView>, aggr: u64|
            unmarked(children) ==> #[trigger] p(arranged(children, aggr)),
    ensures
        unmarked(built(nodes, cfg, depth)),
        forall|i: int|
            0 <= i < built(nodes, cfg, depth).len() ==> everywhere(
                #[trigger] built(nodes, cfg, depth)[i],
                p,
            ),
    decreases nodes, 0nat,
{
    if nodes.len() > 0 {
        lemma_everywhere_built(nodes.drop_last(), cfg, depth, p);
        if cfg.admits(&nodes.last()) {
            lemma_everywhere(&nodes.last(), cfg, depth, p);
        }
    }
}

/// Siblings in order: sizes never rise, except that an entry named as the
/// aggregate may stand last whatever its size.
pub open spec fn ordered(siblings: Seq<EntryView>) -> bool {
    descending(siblings) || (siblings.len() > 0 && descending(siblings.drop_last())
        && siblings.last().name == AGGREGATE_NAME@)
}

/// Exactly one of the siblings is marked as last, the final one; of no
/// siblings, none.
pub open spec fn closed(siblings: Seq<EntryView>) -> bool {
    forall|i: int|
        0 <= i < siblings.len() ==> ((#[trigger] siblings[i]).last <==> i == siblings.len() - 1)
}

/// Every arrangement is in order.
pub proof fn lemma_arranged_ordered(children: Seq<EntryView>, aggr: u64)
    ensures
        ordered(arranged(children, aggr)),
{
    let sorted = sort_desc(kept(children, aggr));
    let shown = arranged(children, aggr);
    law_sort_desc(kept(children, aggr));
    if folded_bytes(children, aggr) > 0 {
        assert(shown.drop_last() == sorted);
    } else {
        assert(forall|i: int| 0 <= i < shown.len() ==> shown[i].bytes == sorted[i].bytes);
    }
}

/// Every arrangement of unmarked children is closed by its final entry.
pub proof fn lemma_arranged_closed(children: Seq<EntryView>, aggr: u64)
    requires
        unmarked(children),
    ensures
        closed(arranged(children, aggr)),
{
    let shown = arranged(children, aggr);
    let lined = lined_up(children, aggr);
    assert forall|k: int| 0 <= k < shown.len() implies ((#[trigger] shown[k]).last <==> k
        == shown.len() - 1) by {
        if k < shown.len() - 1 {
            assert(shown[k] == lined[k]);
            lemma_lined_up_members(children, aggr, k);
        }
    }
}

/// Without a threshold the arrangement is the sorted children, the final
/// one marked.
pub proof fn lemma_arranged_plain(children: Seq<EntryView>)
    ensures
        arranged(children, 0) == mark_last(sort_desc(children)),
{
    lemma_kept_all(children, 0);
}

/// The entries of the roots are unmarked, and what holds of every
/// arrangement holds everywhere in their trees.
pub proof fn lemma_everywhere_roots(
    roots: Seq<FsNode>,
    cfg: &Config,
    p: spec_fn(Seq<EntryView>) -> bool,
)
    requires
        forall|children: Seq<EntryView>, aggr: u64|
            unmarked(children) ==> #[trigger] p(arranged(children, aggr)),
    ensures
        unmarked(root_entries(roots, cfg)),
        forall|i: int|
            0 <= i < root_entries(roots, cfg).len() ==> everywhere(
                #[trigger] root_entries(roots, cfg)[i],
                p,
            ),
        everywhere(Entry::tree_of(roots, cfg), p),
    decreases roots.len(),
{
    if roots.len() > 0 {
        lemma_everywhere_roots(roots.drop_last(), cfg, p);
        lemma_everywhere(&roots.last(), cfg, cfg.depth, p);
    }
    if roots.len() == 1 {
        lemma_everywhere(&roots[0], cfg, cfg.depth, p);
    } else {
        let children = root_entries(roots, cfg);
        lemma_arranged_plain(children);
        let shown = arranged(children, 0);
        assert forall|k: int| 0 <= k < shown.len() implies everywhere(#[trigger] shown[k], p) by {
            lemma_arranged_members(children, 0, k);
            if !same_but_mark(shown[k], aggregate(folded_bytes(children, 0))) {
                let j = choose|j: int|
                    0 <= j < children.len() && same_but_mark(shown[k], children[j]);
                assert(everywhere(children[j], p));
            }
        }
    }
}

/// Law: every sequence of siblings in the result tree of `roots` is in
/// order, by descending size with an aggregate last, see [`ordered`].
pub proof fn law_siblings_ordered(roots: Seq<FsNode>, cfg: &Config)
    ensures
        everywhere(Entry::tree_of(roots, cfg), |s: Seq<EntryView>| ordered(s)),
{
    let p = |s: Seq<EntryView>| ordered(s);
    assert forall|children: Seq<EntryView>, aggr: u64| unmarked(children) implies #[trigger] p(
        arranged(children, aggr),
    ) by {
        lemma_arranged_ordered(children, aggr);
    }
    lemma_everywhere_roots(roots, cfg, p);
}

/// Law: every sequence of siblings in the tree of one node, built with any
/// depth left, is in order, see [`ordered`].
pub proof fn law_siblings_ordered_below(node: &FsNode, cfg: &Config, depth: u8)
    ensures
        everywhere(Entry::of(node, cfg, depth), |s: Seq<EntryView>| ordered(s)),
{
    let p = |s: Seq<EntryView>| ordered(s);
    assert forall|children: Seq<EntryView>, aggr: u64| unmarked(children) implies #[trigger] p(
        arranged(children, aggr),
    ) by {
        lemma_arranged_ordered(children, aggr);
    }
    lemma_everywhere(node, cfg, depth, p);
}

/// Law: in every sequence of siblings in the result tree of `roots` that is
/// not empty, exactly one entry is marked as last, and it is the final one,
/// see [`closed`]. The root is not marked.
pub proof fn law_one_last(roots: Seq<FsNode>, cfg: &Config)
    ensures
        everywhere(Entry::tree_of(roots, cfg), |s: Seq<EntryView>| closed(s)),
        !Entry::tree_of(roots, cfg).last,
{
    let p = |s: Seq<EntryView>| closed(s);
    assert forall|children: Seq<EntryView>, aggr: u64| unmarked(children) implies #[trigger] p(
        arranged(children, aggr),
    ) by {
        lemma_arranged_closed(children, aggr);
    }
    lemma_everywhere_roots(roots, cfg, p);
}

/// Law: as [`law_one_last`], in the tree of one node, built with any depth
/// left.
pub proof fn law_one_last_below(node: &FsNode, cfg: &Config, depth: u8)
    ensures
        everywhere(Entry::of(node, cfg, depth), |s: Seq<EntryView>| closed(s)),
        !Entry::of(node, cfg, depth).last,
{
    let p = |s: Seq<EntryView>| closed(s);
    assert forall|children: Seq<EntryView>, aggr: u64| unmarked(children) implies #[trigger] p(
        arranged(children, aggr),
    ) by {
        lemma_arranged_closed(children, aggr);
    }
    lemma_everywhere(node, cfg, depth, p);
}

/// Law: no entry weighs more than everything below its node: filters can
/// only take away from what is counted.
pub proof fn law_bytes_bounded(node: &FsNode, cfg: &Config, depth: u8)
    ensures
        Entry::of(node, cfg, depth).bytes <= node.total_size(cfg.usage_flag),
    decreases node, 1nat,
{
    if cfg.expands(node, depth) {
        let list = node.entries->0@;
        lemma_built_bounded(list, cfg, cfg.below(depth));
        lemma_sum_bytes_arranged(built(list, cfg, cfg.below(depth)), cfg.aggr);
    }
}

/// No sequence of entries weighs more than the nodes it was built from.
pub proof fn lemma_built_bounded(nodes: Seq<FsNode>, cfg: &Config, depth: u8)
    ensures
        sum_bytes(built(nodes, cfg, depth)) <= sum_total_size(nodes, cfg.usage_flag),
    decreases nodes, 0nat,
{
    if nodes.len() > 0 {
        lemma_built_bounded(nodes.drop_last(), cfg, depth);
        if cfg.admits(&nodes.last()) {
            law_bytes_bounded(&nodes.last(), cfg, depth);
            assert(built(nodes, cfg, depth).drop_last() == built(nodes.drop_last(), cfg, depth));
        }
    }
}

/// Law of sizes: an expanded directory weighs what it weighs itself plus
/// what the entries of its children weigh, taken before any is folded; and
/// as much as itself plus the siblings shown below it, the aggregate
/// included.
pub proof fn law_directory_bytes(node: &FsNode, cfg: &Config, depth: u8)
    requires
        cfg.expands(node, depth),
    ensures
        ({
            let e = Entry::of(node, cfg, depth);
            let children = built(node.entries->0@, cfg, cfg.below(depth));
            &&& e.entries == Some(arranged(children, cfg.aggr))
            &&& e.bytes == node.self_size(cfg.usage_flag) + sum_bytes(children)
            &&& e.bytes == node.self_size(cfg.usage_flag) + sum_bytes(e.entries->0)
        }),
{
    lemma_sum_bytes_arranged(built(node.entries->0@, cfg, cfg.below(depth)), cfg.aggr);
}

/// The sizes of those of `nodes` that pass the filters, each with
/// everything below it.
pub open spec fn admitted_size(nodes: Seq<FsNode>, cfg: &Config) -> nat
    decreases nodes.len(),
{
    if nodes.len() == 0 {
        0
    } else if cfg.admits(&nodes.last()) {
        admitted_size(nodes.drop_last(), cfg) + nodes.last().total_size(cfg.usage_flag)
    } else {
        admitted_size(nodes.drop_last(), cfg)
    }
}

/// No filter is set.
pub open spec fn unfiltered(cfg: &Config) -> bool {
    cfg.exclude@.len() == 0 && !cfg.hiddn_flag && !cfg.no_dir_flg
}

/// With the depth limit used up, the children are leaves that weigh all
/// below their nodes.
pub proof fn lemma_built_at_limit(nodes: Seq<FsNode>, cfg: &Config)
    requires
        cfg.depth_flag,
    ensures
        sum_bytes(built(nodes, cfg, 0)) == admitted_size(nodes, cfg),
        forall|i: int|
            0 <= i < built(nodes, cfg, 0).len() ==> (#[trigger] built(nodes, cfg, 0)[i]).entries
                is None,
    decreases nodes.len(),
{
    if nodes.len() > 0 {
        lemma_built_at_limit(nodes.drop_last(), cfg);
        let before = built(nodes.drop_last(), cfg, 0);
        if cfg.admits(&nodes.last()) {
            let e = Entry::of(&nodes.last(), cfg, 0);
            assert(!cfg.expands(&nodes.last(), 0));
            assert(e.entries is None && e.bytes == nodes.last().total_size(cfg.usage_flag));
            assert(built(nodes, cfg, 0) == before.push(e));
            assert(before.push(e).drop_last() == before);
        } else {
            assert(built(nodes, cfg, 0) == before);
        }
    }
}

/// Law of the depth limit: it bounds what is shown, not what is counted. A
/// node reached with no depth left is shown without entries and weighs
/// everything below it. So a directory expanded with one level left weighs
/// itself plus everything below each child that passes the filters, while
/// none of the siblings below it has entries of its own.
pub proof fn law_depth_limit(node: &FsNode, cfg: &Config)
    requires
        cfg.depth_flag,
    ensures
        Entry::of(node, cfg, 0).entries is None,
        Entry::of(node, cfg, 0).bytes == node.total_size(cfg.usage_flag),
        cfg.expands(node, 1) ==> ({
            let e = Entry::of(node, cfg, 1);
            &&& e.bytes == node.self_size(cfg.usage_flag) + admitted_size(node.entries->0@, cfg)
            &&& forall|k: int| 0 <= k < e.entries->0.len() ==> (#[trigger] e.entries->0[k]).entries is None
        }),
{
    if cfg.expands(node, 1) {
        let children = built(node.entries->0@, cfg, 0);
        lemma_built_at_limit(node.entries->0@, cfg);
        lemma_sum_bytes_arranged(children, cfg.aggr);
        let shown = arranged(children, cfg.aggr);
        assert forall|k: int| 0 <= k < shown.len() implies (#[trigger] shown[k]).entries is None by {
            lemma_arranged_members(children, cfg.aggr, k);
        }
    }
}

/// Law of the collection: the entry above several roots, or none, weighs
/// what the entries of the roots weigh together, and shows one entry per
/// root, by descending size.
pub proof fn law_collection(roots: Seq<FsNode>, cfg: &Config)
    requires
        roots.len() != 1,
    ensures
        ({
            let e = Entry::tree_of(roots, cfg);
            &&& e.entries is Some
            &&& e.entries->0.len() == roots.len()
            &&& descending(e.entries->0)
            &&& e.bytes == sum_bytes(root_entries(roots, cfg))
        }),
{
    let children = root_entries(roots, cfg);
    law_sort_desc(children);
    lemma_sum_bytes_sort(children);
    lemma_sum_bytes_mark_last(sort_desc(children));
    lemma_root_entries_len(roots, cfg);
    let sorted = sort_desc(children);
    let shown = mark_last(sorted);
    assert(forall|i: int| 0 <= i < shown.len() ==> shown[i].bytes == sorted[i].bytes);
}

/// There is one entry per root.
pub proof fn lemma_root_entries_len(roots: Seq<FsNode>, cfg: &Config)
    ensures
        root_entries(roots, cfg).len() == roots.len(),
    decreases roots.len(),
{
    if roots.len() > 0 {
        lemma_root_entries_len(roots.drop_last(), cfg);
    }
}

/// Law: where no filter is set, an entry weighs everything below its node,
/// whatever depth is left.
pub proof fn law_unfiltered_bytes(node: &FsNode, cfg: &Config, depth: u8)
    requires
        unfiltered(cfg),
    ensures
        Entry::of(node, cfg, depth).bytes == node.total_size(cfg.usage_flag),
    decreases node, 1nat,
{
    if cfg.expands(node, depth) {
        lemma_unfiltered_built(node.entries->0@, cfg, cfg.below(depth));
        lemma_sum_bytes_arranged(built(node.entries->0@, cfg, cfg.below(depth)), cfg.aggr);
    }
}

/// See [`law_unfiltered_bytes`].
pub proof fn lemma_unfiltered_built(nodes: Seq<FsNode>, cfg: &Config, depth: u8)
    requires
        unfiltered(cfg),
    ensures
        sum_bytes(built(nodes, cfg, depth)) == sum_total_size(nodes, cfg.usage_flag),
    decreases nodes, 0nat,
{
    if nodes.len() > 0 {
        lemma_unfiltered_built(nodes.drop_last(), cfg, depth);
        law_unfiltered_bytes(&nodes.last(), cfg, depth);
        assert(texts(cfg.exclude@).len() == 0);
        assert(built(nodes, cfg, depth).drop_last() == built(nodes.drop_last(), cfg, depth));
    }
}

} // verus!
