//! The result tree: what is shown of a snapshot under given settings.

use vstd::prelude::*;
use crate::color::{color_from_path, color_of, opt_view};
use crate::config::Config;
use crate::sort::{lemma_sum_bytes_sort, sort_desc, sort_entries};
use crate::text::texts;
use crate::node::{checked, checked_bytes, checked_self_bytes, FsNode};

verus! {

/// One node of the result tree.
#[derive(Debug)]
pub struct Entry {
    /// Display name.
    pub name: String,
    /// Size of the node and of all that was counted below it.
    pub bytes: u64,
    /// Code of the colour the name is drawn in.
    pub color: Option<String>,
    /// The entry closes its sequence of siblings.
    pub last: bool,
    /// The entries below a directory that was expanded, in the order shown.
    pub entries: Option<Vec<Entry>>,
}

/// An [`Entry`] as plain values, field by field; a size may be any number.
pub struct EntryView {
    pub name: Seq<char>,
    pub bytes: nat,
    pub color: Option<Seq<char>>,
    pub last: bool,
    pub entries: Option<Seq<EntryView>>,
}

impl View for Entry {
    type V = EntryView;

    open spec fn view(&self) -> EntryView
        decreases self,
    {
        EntryView {
            name: self.name@,
            bytes: self.bytes as nat,
            color: match self.color {
                Some(c) => Some(c@),
                None => None,
            },
            last: self.last,
            entries: match self.entries {
                Some(v) => Some(entry_views(v@)),
                None => None,
            },
        }
    }
}

/// The views of `entries`, in order.
pub open spec fn entry_views(entries: Seq<Entry>) -> Seq<EntryView>
    decreases entries,
{
    if entries.len() == 0 {
        Seq::empty()
    } else {
        entry_views(entries.drop_last()).push(entries.last()@)
    }
}

/// The view of an entry, field by field.
pub proof fn lemma_view(e: Entry)
    ensures
        e@.name == e.name@,
        e@.bytes == e.bytes,
        e@.color == opt_view(e.color),
        e@.last == e.last,
        e@.entries == match e.entries {
            Some(v) => Some(entry_views(v@)),
            None => None,
        },
{
}

/// `entry_views` goes element by element.
pub proof fn lemma_entry_views(entries: Seq<Entry>)
    ensures
        entry_views(entries).len() == entries.len(),
        forall|i: int|
            0 <= i < entries.len() ==> (#[trigger] entry_views(entries)[i]) == entries[i]@
                && entry_views(entries)[i].bytes == entries[i].bytes,
        forall|i: int|
            0 <= i < entries.len() ==> (#[trigger] entries[i])@ == entry_views(entries)[i]
                && entries[i]@.bytes == entries[i].bytes,
    decreases entries.len(),
{
    if entries.len() > 0 {
        lemma_entry_views(entries.drop_last());
        assert(entry_views(entries) == entry_views(entries.drop_last()).push(entries.last()@));
        assert forall|i: int| 0 <= i < entries.len() implies (#[trigger] entry_views(entries)[i])
            == entries[i]@ && entry_views(entries)[i].bytes == entries[i].bytes by {
            lemma_view(entries[i]);
            if i < entries.len() - 1 {
                assert(entries.drop_last()[i] == entries[i]);
            }
        }
    }
}

/// The name of the entry that stands for the aggregated siblings.
pub const AGGREGATE_NAME: &'static str = "aggregated-entries-marker";

/// The name of the entry above several roots.
pub const COLLECTION_NAME: &'static str = "multi-root-collection-marker";

/// The sizes of `entries` added up.
pub open spec fn sum_bytes(entries: Seq<EntryView>) -> nat
    decreases entries.len(),
{
    if entries.len() == 0 {
        0
    } else {
        sum_bytes(entries.drop_last()) + entries.last().bytes
    }
}

/// Whether an entry of `bytes` bytes is folded into the aggregate: with a
/// threshold set, an entry below it.
pub open spec fn folds(bytes: nat, aggr: u64) -> bool {
    aggr > 0 && bytes < aggr
}

/// Those of `children` that stay visible, in order.
pub open spec fn kept(children: Seq<EntryView>, aggr: u64) -> Seq<EntryView>
    decreases children.len(),
{
    if children.len() == 0 {
        children
    } else if folds(children.last().bytes, aggr) {
        kept(children.drop_last(), aggr)
    } else {
        kept(children.drop_last(), aggr).push(children.last())
    }
}

/// The sizes of those of `children` that are folded, added up.
pub open spec fn folded_bytes(children: Seq<EntryView>, aggr: u64) -> nat
    decreases children.len(),
{
    if children.len() == 0 {
        0
    } else if folds(children.last().bytes, aggr) {
        folded_bytes(children.drop_last(), aggr) + children.last().bytes
    } else {
        folded_bytes(children.drop_last(), aggr)
    }
}

/// The entry that stands for siblings of `bytes` bytes in all.
pub open spec fn aggregate(bytes: nat) -> EntryView {
    EntryView { name: AGGREGATE_NAME@, bytes, color: None, last: false, entries: None }
}

/// `entries` with the final one marked as last.
pub open spec fn mark_last(entries: Seq<EntryView>) -> Seq<EntryView> {
    if entries.len() == 0 {
        entries
    } else {
        entries.update(entries.len() - 1, EntryView { last: true, ..entries.last() })
    }
}

/// The siblings shown for `children`, in their order: those kept, by
/// descending size, then the aggregate of the others unless it is empty.
pub open spec fn lined_up(children: Seq<EntryView>, aggr: u64) -> Seq<EntryView> {
    let sorted = sort_desc(kept(children, aggr));
    let folded = folded_bytes(children, aggr);
    if folded > 0 {
        sorted.push(aggregate(folded))
    } else {
        sorted
    }
}

/// The siblings shown for `children`: lined up, and the final one marked.
pub open spec fn arranged(children: Seq<EntryView>, aggr: u64) -> Seq<EntryView> {
    mark_last(lined_up(children, aggr))
}

impl Config {
    /// Whether a listed node passes the filters: its name is not excluded,
    /// it is not hidden while hidden entries are left out, and it is no
    /// directory while directories are skipped.
    pub open spec fn admits(&self, child: &FsNode) -> bool {
        &&& !texts(self.exclude@).contains(child.name@)
        &&& !(self.hiddn_flag && child.name@.len() > 0 && child.name@[0] == '.')
        &&& !(self.no_dir_flg && child.is_dir)
    }

    /// Whether a node is expanded when `depth` levels may still be: a
    /// directory that was listed, unless the depth limit is on and used up.
    pub open spec fn expands(&self, node: &FsNode, depth: u8) -> bool {
        node.is_dir && (!self.depth_flag || depth > 0) && node.entries is Some
    }

    /// The levels that may still be expanded one level further down.
    pub open spec fn below(&self, depth: u8) -> u8 {
        if self.depth_flag && depth > 0 {
            (depth - 1) as u8
        } else {
            depth
        }
    }
}

impl Entry {
    /// The entry of `node` with `depth` levels to expand below it. A node
    /// that is expanded has the arranged entries of the nodes listed in it
    /// that pass the filters, and its own size plus theirs; any other node
    /// has no entries and the size of everything below it, unfiltered.
    pub open spec fn of(node: &FsNode, cfg: &Config, depth: u8) -> EntryView
        decreases node,
    {
        let color = if cfg.ascii_flag {
            None
        } else {
            color_of(node, cfg.color_dict@)
        };
        if cfg.expands(node, depth) {
            let shown = arranged(built(node.entries->0@, cfg, cfg.below(depth)), cfg.aggr);
            EntryView {
                name: node.name@,
                bytes: node.self_size(cfg.usage_flag) + sum_bytes(shown),
                color,
                last: false,
                entries: Some(shown),
            }
        } else {
            EntryView {
                name: node.name@,
                bytes: node.total_size(cfg.usage_flag),
                color,
                last: false,
                entries: None,
            }
        }
    }
}

/// The entries of those of `nodes` that pass the filters, in order, before
/// any is folded or moved.
pub open spec fn built(nodes: Seq<FsNode>, cfg: &Config, depth: u8) -> Seq<EntryView>
    decreases nodes,
{
    if nodes.len() == 0 {
        Seq::empty()
    } else if cfg.admits(&nodes.last()) {
        built(nodes.drop_last(), cfg, depth).push(Entry::of(&nodes.last(), cfg, depth))
    } else {
        built(nodes.drop_last(), cfg, depth)
    }
}

impl Config {
    /// Whether a listed node passes the filters, see [`Config::admits`].
    pub fn passes(&self, child: &FsNode) -> (yes: bool)
        ensures
            yes == self.admits(child),
    {
        let mut i: usize = 0;
        while i < self.exclude.len()
            invariant
                i <= self.exclude.len(),
                !texts(self.exclude@).take(i as int).contains(child.name@),
            decreases self.exclude.len() - i,
        {
            if self.exclude[i] == child.name {
                assert(texts(self.exclude@)[i as int] == child.name@);
                return false;
            }
            assert(texts(self.exclude@).take(i + 1) == texts(self.exclude@).take(i as int).push(
                self.exclude@[i as int]@,
            ));
            i = i + 1;
        }
        assert(texts(self.exclude@).take(i as int) == texts(self.exclude@));
        if self.hiddn_flag && starts_with_dot(child.name.as_str()) {
            return false;
        }
        !(self.no_dir_flg && child.is_dir)
    }
}

/// Whether the first character of `name` is a dot.
fn starts_with_dot(name: &str) -> (yes: bool)
    ensures
        yes == (name@.len() > 0 && name@[0] == '.'),
{
    let mut chars = name.chars();
    match chars.next() {
        Some(c) => c == '.',
        None => false,
    }
}

/// The aggregate of siblings of `bytes` bytes in all.
fn aggregate_entry(bytes: u64) -> (e: Entry)
    ensures
        e@ == aggregate(bytes as nat),
{
    Entry { name: AGGREGATE_NAME.to_owned(), bytes, color: None, last: false, entries: None }
}

/// Marks the final entry of `entries` as last.
#[verifier::rlimit(50)]
fn mark_last_entry(entries: &mut Vec<Entry>)
    ensures
        entry_views(final(entries)@) == mark_last(entry_views(old(entries)@)),
{
    proof {
        lemma_entry_views(entries@);
    }
    let ghost before = entries@;
    match entries.pop() {
        Some(e) => {
            let marked = Entry {
                name: e.name,
                bytes: e.bytes,
                color: e.color,
                last: true,
                entries: e.entries,
            };
            entries.push(marked);
            proof {
                lemma_view(e);
                lemma_view(marked);
                lemma_entry_views(entries@);
                let views = entry_views(before);
                let wanted = mark_last(views);
                assert(before.last() == e);
                assert forall|j: int| 0 <= j < wanted.len() implies entry_views(entries@)[j]
                    == wanted[j] by {
                    if j < wanted.len() - 1 {
                        assert(entries@[j] == before[j]);
                    }
                }
                assert(entry_views(entries@) =~= wanted);
            }
        },
        None => {},
    }
}

/// The sizes of `entries` added to `start`: `None` where the sum does not
/// fit.
fn add_bytes(start: u64, entries: &Vec<Entry>) -> (total: Option<u64>)
    ensures
        total == checked(start as nat + sum_bytes(entry_views(entries@))),
{
    let mut total: u64 = start;
    let mut i: usize = 0;
    let ghost views = entry_views(entries@);
    proof {
        lemma_entry_views(entries@);
        assert(views.take(0) == Seq::<EntryView>::empty());
    }
    while i < entries.len()
        invariant
            i <= entries.len(),
            views == entry_views(entries@),
            views.len() == entries.len(),
            forall|j: int| 0 <= j < entries.len() ==> (#[trigger] views[j]).bytes == entries[j].bytes,
            total == start + sum_bytes(views.take(i as int)),
        decreases entries.len() - i,
    {
        proof {
            lemma_sum_bytes_concat(views.take(i + 1), views.skip(i + 1));
            assert(views.take(i + 1) + views.skip(i + 1) == views);
            assert(views.take(i + 1).drop_last() == views.take(i as int));
            assert(views.take(i + 1).last() == views[i as int]);
        }
        match total.checked_add(entries[i].bytes) {
            Some(sum) => {
                total = sum;
            },
            None => {
                return None;
            },
        }
        i = i + 1;
    }
    assert(views.take(i as int) == views);
    Some(total)
}

/// What the first children weigh, all of them weigh at least; and so does
/// what is folded of them.
pub proof fn lemma_built_prefix(nodes: Seq<FsNode>, cfg: &Config, depth: u8, i: int)
    requires
        0 <= i <= nodes.len(),
    ensures
        sum_bytes(built(nodes.take(i), cfg, depth)) <= sum_bytes(built(nodes, cfg, depth)),
        folded_bytes(built(nodes.take(i), cfg, depth), cfg.aggr) <= sum_bytes(
            built(nodes, cfg, depth),
        ),
    decreases nodes.len() - i,
{
    lemma_sum_bytes_split(built(nodes.take(i), cfg, depth), cfg.aggr);
    if i < nodes.len() {
        lemma_built_prefix(nodes, cfg, depth, i + 1);
        let before = built(nodes.take(i), cfg, depth);
        assert(nodes.take(i + 1).drop_last() == nodes.take(i));
        if cfg.admits(&nodes[i]) {
            let e = Entry::of(&nodes[i], cfg, depth);
            assert(built(nodes.take(i + 1), cfg, depth) == before.push(e));
            assert(before.push(e).drop_last() == before);
        } else {
            assert(built(nodes.take(i + 1), cfg, depth) == before);
        }
    } else {
        assert(nodes.take(i) == nodes);
    }
}

/// What the first roots weigh, all of them weigh at least.
pub proof fn lemma_roots_prefix(roots: Seq<FsNode>, cfg: &Config, i: int)
    requires
        0 <= i <= roots.len(),
    ensures
        sum_bytes(root_entries(roots.take(i), cfg)) <= sum_bytes(root_entries(roots, cfg)),
    decreases roots.len() - i,
{
    if i < roots.len() {
        lemma_roots_prefix(roots, cfg, i + 1);
        let before = root_entries(roots.take(i), cfg);
        let e = Entry::of(&roots[i], cfg, cfg.depth);
        assert(roots.take(i + 1).drop_last() == roots.take(i));
        assert(root_entries(roots.take(i + 1), cfg) == before.push(e));
        assert(before.push(e).drop_last() == before);
    } else {
        assert(roots.take(i) == roots);
    }
}

impl Entry {
    /// Builds the entry of `node` with `depth` levels to expand below it,
    /// see [`Entry::of`]: `None` where its size does not fit.
    #[verifier::rlimit(50)]
    pub fn try_new(node: &FsNode, cfg: &Config, depth: u8) -> (e: Option<Entry>)
        ensures
            match e {
                Some(e) => e@ == Entry::of(node, cfg, depth),
                None => Entry::of(node, cfg, depth).bytes > u64::MAX,
            },
        decreases node,
    {
        let name: String = node.name.clone();
        let color: Option<String> = if !cfg.ascii_flag {
            color_from_path(node, &cfg.color_dict)
        } else {
            None
        };
        let expand: bool = node.is_dir && (!cfg.depth_flag || depth > 0);
        match &node.entries {
            Some(list) if expand => {
                let below: u8 = if cfg.depth_flag {
                    depth - 1
                } else {
                    depth
                };
                let mut vec: Vec<Entry> = Vec::new();
                let mut aggr_bytes: u64 = 0;
                let mut i: usize = 0;
                proof {
                    assert(list@.take(0) == Seq::<FsNode>::empty());
                    lemma_sum_bytes_arranged(built(list@, cfg, below), cfg.aggr);
                }
                while i < list.len()
                    invariant
                        i <= list.len(),
                        node.entries == Some(*list),
                        cfg.expands(node, depth),
                        below == cfg.below(depth),
                        Entry::of(node, cfg, depth).bytes >= sum_bytes(built(list@, cfg, below)),
                        entry_views(vec@) == kept(
                            built(list@.take(i as int), cfg, below),
                            cfg.aggr,
                        ),
                        aggr_bytes == folded_bytes(
                            built(list@.take(i as int), cfg, below),
                            cfg.aggr,
                        ),
                    decreases list.len() - i,
                {
                    let ghost before = built(list@.take(i as int), cfg, below);
                    proof {
                        assert(list@.take(i + 1).drop_last() == list@.take(i as int));
                        lemma_built_prefix(list@, cfg, below, i + 1);
                        assert(node.entries->0 == *list);
                    }
                    let child: &FsNode = &list[i];
                    if cfg.passes(child) {
                        proof {
                            let e = Entry::of(child, cfg, below);
                            assert(built(list@.take(i + 1), cfg, below) == before.push(e));
                            assert(before.push(e).drop_last() == before);
                        }
                        let entry: Entry = match Entry::try_new(child, cfg, below) {
                            Some(entry) => entry,
                            None => {
                                return None;
                            },
                        };
                        proof {
                            lemma_view(entry);
                        }
                        if cfg.aggr > 0 && entry.bytes < cfg.aggr {
                            match aggr_bytes.checked_add(entry.bytes) {
                                Some(sum) => {
                                    aggr_bytes = sum;
                                },
                                None => {
                                    return None;
                                },
                            }
                        } else {
                            let ghost shown = vec@;
                            vec.push(entry);
                            proof {
                                assert(vec@.drop_last() == shown);
                                assert(before.push(entry@).drop_last() == before);
                            }
                        }
                    }
                    i = i + 1;
                }
                proof {
                    assert(list@.take(i as int) == list@);
                }
                let mut vec: Vec<Entry> = sort_entries(vec);
                if aggr_bytes > 0 {
                    let ghost sorted = vec@;
                    vec.push(aggregate_entry(aggr_bytes));
                    assert(vec@.drop_last() == sorted);
                }
                mark_last_entry(&mut vec);
                let own: u64 = match checked_self_bytes(node, cfg.usage_flag) {
                    Some(own) => own,
                    None => {
                        return None;
                    },
                };
                match add_bytes(own, &vec) {
                    Some(bytes) => Some(
                        Entry { name, bytes, color, last: false, entries: Some(vec) },
                    ),
                    None => None,
                }
            },
            _ => match checked_bytes(node, cfg.usage_flag) {
                Some(bytes) => Some(Entry { name, bytes, color, last: false, entries: None }),
                None => None,
            },
        }
    }

    /// Builds the entry of `node` with `depth` levels to expand below it,
    /// see [`Entry::of`].
    pub fn new(node: &FsNode, cfg: &Config, depth: u8) -> (e: Entry)
        requires
            Entry::of(node, cfg, depth).bytes <= u64::MAX,
        ensures
            e@ == Entry::of(node, cfg, depth),
    {
        Entry::try_new(node, cfg, depth).unwrap()
    }
}

/// The entries of `roots`, each built on its own, in order.
pub open spec fn root_entries(roots: Seq<FsNode>, cfg: &Config) -> Seq<EntryView>
    decreases roots.len(),
{
    if roots.len() == 0 {
        Seq::empty()
    } else {
        root_entries(roots.drop_last(), cfg).push(Entry::of(&roots.last(), cfg, cfg.depth))
    }
}

impl Entry {
    /// The result tree of `roots`. One root is its own tree. Several roots,
    /// or none, stand below a collection entry: by descending size, the
    /// final one marked; the collection weighs what they weigh together, has
    /// no colour and is expanded whatever the depth limit.
    pub open spec fn tree_of(roots: Seq<FsNode>, cfg: &Config) -> EntryView {
        if roots.len() == 1 {
            Entry::of(&roots[0], cfg, cfg.depth)
        } else {
            let shown = mark_last(sort_desc(root_entries(roots, cfg)));
            EntryView {
                name: COLLECTION_NAME@,
                bytes: sum_bytes(shown),
                color: None,
                last: false,
                entries: Some(shown),
            }
        }
    }

    /// Builds the result tree of `roots`, see [`Entry::tree_of`]: `None`
    /// where its size does not fit.
    #[verifier::rlimit(50)]
    pub fn try_tree(roots: &Vec<FsNode>, cfg: &Config) -> (e: Option<Entry>)
        ensures
            match e {
                Some(e) => e@ == Entry::tree_of(roots@, cfg),
                None => Entry::tree_of(roots@, cfg).bytes > u64::MAX,
            },
    {
        if roots.len() == 1 {
            return Entry::try_new(&roots[0], cfg, cfg.depth);
        }
        let mut entries: Vec<Entry> = Vec::new();
        let mut i: usize = 0;
        proof {
            assert(roots@.take(0) == Seq::<FsNode>::empty());
            lemma_sum_bytes_sort(root_entries(roots@, cfg));
            lemma_sum_bytes_mark_last(sort_desc(root_entries(roots@, cfg)));
        }
        while i < roots.len()
            invariant
                i <= roots.len(),
                roots.len() != 1,
                Entry::tree_of(roots@, cfg).bytes == sum_bytes(root_entries(roots@, cfg)),
                entry_views(entries@) == root_entries(roots@.take(i as int), cfg),
            decreases roots.len() - i,
        {
            let ghost before = root_entries(roots@.take(i as int), cfg);
            proof {
                assert(roots@.take(i + 1).drop_last() == roots@.take(i as int));
                lemma_roots_prefix(roots@, cfg, i + 1);
                let e = Entry::of(&roots@[i as int], cfg, cfg.depth);
                assert(root_entries(roots@.take(i + 1), cfg) == before.push(e));
                assert(before.push(e).drop_last() == before);
            }
            let e: Entry = match Entry::try_new(&roots[i], cfg, cfg.depth) {
                Some(e) => e,
                None => {
                    return None;
                },
            };
            let ghost shown = entries@;
            entries.push(e);
            assert(entries@.drop_last() == shown);
            i = i + 1;
        }
        assert(roots@.take(i as int) == roots@);
        let mut entries: Vec<Entry> = sort_entries(entries);
        mark_last_entry(&mut entries);
        match add_bytes(0, &entries) {
            Some(bytes) => Some(
                Entry {
                    name: COLLECTION_NAME.to_owned(),
                    bytes,
                    color: None,
                    last: false,
                    entries: Some(entries),
                },
            ),
            None => None,
        }
    }

    /// Builds the result tree of `roots`, see [`Entry::tree_of`].
    pub fn tree(roots: &Vec<FsNode>, cfg: &Config) -> (e: Entry)
        requires
            Entry::tree_of(roots@, cfg).bytes <= u64::MAX,
        ensures
            e@ == Entry::tree_of(roots@, cfg),
    {
        Entry::try_tree(roots, cfg).unwrap()
    }
}

/// The sizes of two sequences in a row add up.
pub proof fn lemma_sum_bytes_concat(a: Seq<EntryView>, b: Seq<EntryView>)
    ensures
        sum_bytes(a + b) == sum_bytes(a) + sum_bytes(b),
    decreases b.len(),
{
    if b.len() == 0 {
        assert(a + b == a);
    } else {
        assert((a + b).drop_last() == a + b.drop_last());
        lemma_sum_bytes_concat(a, b.drop_last());
    }
}

/// What is kept and what is folded make up the whole.
pub proof fn lemma_sum_bytes_split(children: Seq<EntryView>, aggr: u64)
    ensures
        sum_bytes(kept(children, aggr)) + folded_bytes(children, aggr) == sum_bytes(children),
    decreases children.len(),
{
    if children.len() > 0 {
        lemma_sum_bytes_split(children.drop_last(), aggr);
        if !folds(children.last().bytes, aggr) {
            assert(kept(children, aggr).drop_last() == kept(children.drop_last(), aggr));
        }
    }
}

/// Marking the final entry changes no size.
pub proof fn lemma_sum_bytes_mark_last(entries: Seq<EntryView>)
    ensures
        sum_bytes(mark_last(entries)) == sum_bytes(entries),
{
    if entries.len() > 0 {
        assert(mark_last(entries).drop_last() == entries.drop_last());
    }
}

/// The siblings shown weigh what the entries they were made of weigh.
pub proof fn lemma_sum_bytes_arranged(children: Seq<EntryView>, aggr: u64)
    ensures
        sum_bytes(arranged(children, aggr)) == sum_bytes(children),
{
    let sorted = sort_desc(kept(children, aggr));
    let folded = folded_bytes(children, aggr);
    lemma_sum_bytes_split(children, aggr);
    lemma_sum_bytes_sort(kept(children, aggr));
    if folded > 0 {
        let all = sorted.push(aggregate(folded));
        assert(all.drop_last() == sorted);
        lemma_sum_bytes_mark_last(all);
    } else {
        lemma_sum_bytes_mark_last(sorted);
    }
}

} // verus!
