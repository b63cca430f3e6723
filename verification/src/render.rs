//! The result tree as lines of text for a terminal.

use vstd::prelude::*;
use crate::bar::{bar_text, fmt_bar};
use crate::color::opt_view;
use crate::column::{fit_column, name_column};
use crate::config::Config;
use crate::entry::{entry_views, lemma_entry_views, lemma_view, Entry, EntryView};
use crate::node::FsNode;
use crate::size::{fmt_size_str, size_text};
use crate::text::{nats, push_right_aligned, right_aligned, texts};

verus! {

/// The terminal width taken where none is known.
pub const DEF_WIDTH: u16 = 80;

/// Columns kept for the size at the end of a line.
pub const SIZE_COLUMN: usize = 15;

/// Columns that a size is right-aligned in.
pub const SIZE_FIELD: usize = 13;

/// The least width of the column of tree and name.
pub const MIN_NAME_COLUMN: usize = 25;

/// The share of the line, in percent, that tree and name get beyond that.
pub const NAME_SHARE: usize = 25;

/// Columns of one level of the tree.
pub const BRANCH: usize = 3;

/// What every line of one rendering has in common.
#[derive(Clone, Copy, Debug)]
pub struct Frame {
    /// Sizes are written in bytes.
    pub bytes_flag: bool,
    /// Plain characters only, no colours.
    pub ascii_flag: bool,
    /// The size that a full bar stands for.
    pub max_bytes: u64,
    /// Columns of the bar with its frame.
    pub bar_width: usize,
    /// Columns of tree and name together.
    pub tree_name_width: usize,
}

/// The columns of a line that are not kept for the size.
pub open spec fn free_width(term_width: Option<u16>) -> nat {
    let width = match term_width {
        Some(w) => w,
        None => DEF_WIDTH,
    };
    if width >= SIZE_COLUMN {
        (width - SIZE_COLUMN) as nat
    } else {
        0
    }
}

/// The columns of tree and name: a quarter of the free columns, and at
/// least `MIN_NAME_COLUMN`.
pub open spec fn name_width(term_width: Option<u16>) -> nat {
    let share = free_width(term_width) * NAME_SHARE as nat / 100;
    if share > MIN_NAME_COLUMN {
        share
    } else {
        MIN_NAME_COLUMN as nat
    }
}

/// The columns of the bar: the free columns that tree and name leave.
pub open spec fn bar_width(term_width: Option<u16>) -> nat {
    if free_width(term_width) >= name_width(term_width) {
        (free_width(term_width) - name_width(term_width)) as nat
    } else {
        0
    }
}

/// The largest size among `entries`; zero of none.
pub open spec fn largest(entries: Seq<EntryView>) -> nat
    decreases entries.len(),
{
    if entries.len() == 0 {
        0
    } else if entries.last().bytes > largest(entries.drop_last()) {
        entries.last().bytes
    } else {
        largest(entries.drop_last())
    }
}

/// The size that a full bar stands for: that of the largest entry below the
/// root, or of the root where nothing stands below it.
pub open spec fn reference_bytes(root: EntryView) -> nat {
    match root.entries {
        Some(v) => if v.len() > 0 {
            largest(v)
        } else {
            root.bytes
        },
        None => root.bytes,
    }
}

/// The guides of the levels above: blank below an entry that closed its
/// level, a vertical line below any other.
pub open spec fn guides(open: Seq<bool>) -> Seq<char>
    decreases open.len(),
{
    if open.len() == 0 {
        Seq::empty()
    } else if open.last() {
        guides(open.drop_last()) + seq![' ', ' ', ' ']
    } else {
        guides(open.drop_last()) + seq!['│', ' ', ' ']
    }
}

/// The branch to an entry: a corner to the last of its level, a tee to any
/// other.
pub open spec fn branch(last: bool) -> Seq<char> {
    if last {
        seq!['└', '─', ' ']
    } else {
        seq!['├', '─', ' ']
    }
}

/// `text` in the colour `color`: between the escape sequence that sets the
/// foreground and the one that resets it. Plain where there is no colour or
/// only plain characters are asked for.
pub open spec fn painted(text: Seq<char>, color: Option<Seq<char>>, ascii: bool) -> Seq<char> {
    match color {
        Some(code) => if ascii {
            text
        } else {
            seq!['\x1b', '['] + code + seq!['m'] + text + seq!['\x1b', '[', '0', 'm']
        },
        None => text,
    }
}

impl Frame {
    /// Whether an entry below `levels` levels has room for its branch.
    pub open spec fn fits(&self, levels: nat) -> bool {
        self.tree_name_width >= BRANCH * (levels + 1)
    }

    /// The columns left to the name of an entry below `levels` levels.
    pub open spec fn name_columns(&self, levels: nat) -> nat {
        (self.tree_name_width - BRANCH * (levels + 1)) as nat
    }

    /// The line of `e`, below the levels `open`, with `chain` the sizes from
    /// the root down to its parent: guides and branch, the name in its
    /// column and colour, the bar, the size.
    pub open spec fn line(&self, e: EntryView, open: Seq<bool>, chain: Seq<nat>) -> Seq<char> {
        guides(open) + branch(e.last) + painted(
            name_column(e.name, self.name_columns(open.len())),
            e.color,
            self.ascii_flag,
        ) + seq![' '] + bar_text(
            chain.push(e.bytes),
            self.max_bytes as nat,
            self.bar_width as nat,
            self.ascii_flag,
        ) + seq![' '] + right_aligned(size_text(e.bytes, self.bytes_flag), SIZE_FIELD as nat)
    }

    /// The lines of `e` and of all below it; none where `e` has no room.
    pub open spec fn lines_of(&self, e: EntryView, open: Seq<bool>, chain: Seq<nat>) -> Seq<
        Seq<char>,
    >
        decreases e, 2nat,
    {
        if self.fits(open.len()) {
            seq![self.line(e, open, chain)] + self.lines_below(
                e,
                open.push(e.last),
                chain.push(e.bytes),
            )
        } else {
            Seq::empty()
        }
    }

    /// The lines of all below `e`, which stands at the end of `open` and
    /// `chain`.
    pub open spec fn lines_below(&self, e: EntryView, open: Seq<bool>, chain: Seq<nat>) -> Seq<
        Seq<char>,
    >
        decreases e, 1nat,
    {
        match e.entries {
            Some(v) => self.lines_of_all(v, open, chain),
            None => Seq::empty(),
        }
    }

    /// The lines of `entries`, one after the other.
    pub open spec fn lines_of_all(
        &self,
        entries: Seq<EntryView>,
        open: Seq<bool>,
        chain: Seq<nat>,
    ) -> Seq<Seq<char>>
        decreases entries, 0nat,
    {
        if entries.len() == 0 {
            Seq::empty()
        } else {
            self.lines_of_all(entries.drop_last(), open, chain) + self.lines_of(
                entries.last(),
                open,
                chain,
            )
        }
    }
}

/// The first line: name and size of the root.
pub open spec fn root_line(root: EntryView, bytes_flag: bool) -> Seq<char> {
    seq!['[', ' '] + root.name + seq![' '] + size_text(root.bytes, bytes_flag) + seq![' ', ']']
}

/// The frame of a rendering of `root` on a terminal `term_width` wide.
pub open spec fn frame_of(
    root: EntryView,
    bytes_flag: bool,
    ascii_flag: bool,
    term_width: Option<u16>,
) -> Frame {
    Frame {
        bytes_flag,
        ascii_flag,
        max_bytes: reference_bytes(root) as u64,
        bar_width: bar_width(term_width) as usize,
        tree_name_width: name_width(term_width) as usize,
    }
}

/// The lines of a tree: the root, then depth first every entry that has
/// room.
pub open spec fn rendering(
    root: EntryView,
    bytes_flag: bool,
    ascii_flag: bool,
    term_width: Option<u16>,
) -> Seq<Seq<char>> {
    seq![root_line(root, bytes_flag)] + frame_of(
        root,
        bytes_flag,
        ascii_flag,
        term_width,
    ).lines_below(root, Seq::empty(), seq![root.bytes])
}

/// A copy of `v` with `x` behind it.
fn extended<T: Copy>(v: &Vec<T>, x: T) -> (longer: Vec<T>)
    ensures
        longer@ == v@.push(x),
{
    let mut longer: Vec<T> = Vec::new();
    let mut i: usize = 0;
    while i < v.len()
        invariant
            i <= v.len(),
            longer@ == v@.take(i as int),
        decreases v.len() - i,
    {
        longer.push(v[i]);
        assert(v@.take(i + 1) == v@.take(i as int).push(v@[i as int]));
        i = i + 1;
    }
    assert(v@.take(i as int) == v@);
    longer.push(x);
    longer
}

/// Appends the guides of the levels `open` to `out`, see [`guides`].
fn push_guides(out: &mut String, open: &Vec<bool>)
    ensures
        final(out)@ == old(out)@ + guides(open@),
{
    let mut i: usize = 0;
    assert(open@.take(0) == Seq::<bool>::empty());
    while i < open.len()
        invariant
            i <= open.len(),
            out@ == old(out)@ + guides(open@.take(i as int)),
        decreases open.len() - i,
    {
        assert(open@.take(i + 1).drop_last() == open@.take(i as int));
        if open[i] {
            out.push(' ');
        } else {
            out.push('│');
        }
        out.push(' ');
        out.push(' ');
        assert(out@ =~= old(out)@ + guides(open@.take(i + 1)));
        i = i + 1;
    }
    assert(open@.take(i as int) == open@);
}

/// The largest size among `entries`, see [`largest`].
fn largest_of(entries: &Vec<Entry>) -> (max: u64)
    ensures
        max == largest(entry_views(entries@)),
{
    let mut max: u64 = 0;
    let mut i: usize = 0;
    let ghost views = entry_views(entries@);
    proof {
        lemma_entry_views(entries@);
        assert(views.take(0) == Seq::<EntryView>::empty());
    }
    while i < entries.len()
        invariant
            i <= entries.len(),
            views.len() == entries.len(),
            forall|j: int| 0 <= j < entries.len() ==> (#[trigger] views[j]).bytes == entries[j].bytes,
            max == largest(views.take(i as int)),
        decreases entries.len() - i,
    {
        assert(views.take(i + 1).drop_last() == views.take(i as int));
        assert(views.take(i + 1).last() == views[i as int]);
        if entries[i].bytes > max {
            max = entries[i].bytes;
        }
        i = i + 1;
    }
    assert(views.take(i as int) == views);
    max
}

impl Frame {
    /// The frame of a rendering of `root`, see [`frame_of`].
    pub fn new(root: &Entry, bytes_flag: bool, ascii_flag: bool, term_width: Option<u16>) -> (f: Frame)
        ensures
            f == frame_of(root@, bytes_flag, ascii_flag, term_width),
    {
        proof {
            lemma_view(*root);
            if root.entries is Some {
                lemma_entry_views(root.entries->0@);
            }
        }
        let width: usize = match term_width {
            Some(w) => w as usize,
            None => DEF_WIDTH as usize,
        };
        let free: usize = if width >= SIZE_COLUMN {
            width - SIZE_COLUMN
        } else {
            0
        };
        let share: usize = free * NAME_SHARE / 100;
        let tree_name_width: usize = if share > MIN_NAME_COLUMN {
            share
        } else {
            MIN_NAME_COLUMN
        };
        let bar_width: usize = if free >= tree_name_width {
            free - tree_name_width
        } else {
            0
        };
        let max_bytes: u64 = match &root.entries {
            Some(v) => if v.len() > 0 {
                largest_of(v)
            } else {
                root.bytes
            },
            None => root.bytes,
        };
        Frame { bytes_flag, ascii_flag, max_bytes, bar_width, tree_name_width }
    }

    /// Writes the line of `e`, see [`Frame::line`].
    #[verifier::rlimit(50)]
    pub fn fmt_line(&self, e: &Entry, open: &Vec<bool>, chain: &Vec<u64>) -> (line: String)
        requires
            self.fits(open.len() as nat),
            chain.len() >= 1,
        ensures
            line@ == self.line(e@, open@, nats(chain@)),
    {
        proof {
            lemma_view(*e);
        }
        let levels: usize = open.len();
        assert(BRANCH * (levels + 1) <= self.tree_name_width);
        let name: String = fit_column(e.name.as_str(), self.tree_name_width - BRANCH * (levels + 1));
        let bytes: Vec<u64> = extended(chain, e.bytes);
        assert(nats(bytes@) =~= nats(chain@).push(e.bytes as nat));
        let bar: String = fmt_bar(&bytes, self.max_bytes, self.bar_width, self.ascii_flag);
        let size: String = fmt_size_str(e.bytes, self.bytes_flag);
        let mut line: String = String::new();
        push_guides(&mut line, open);
        push_branch(&mut line, e.last);
        push_painted(&mut line, name.as_str(), &e.color, self.ascii_flag);
        line.push(' ');
        line.append(bar.as_str());
        line.push(' ');
        push_right_aligned(&mut line, size.as_str(), SIZE_FIELD);
        assert(line@ =~= guides(open@) + branch(e.last) + painted(
            name@,
            opt_view(e.color),
            self.ascii_flag,
        ) + seq![' '] + bar@ + seq![' '] + right_aligned(size@, SIZE_FIELD as nat));
        line
    }
}

/// Appends the branch to an entry to `out`, see [`branch`].
fn push_branch(out: &mut String, last: bool)
    ensures
        final(out)@ == old(out)@ + branch(last),
{
    if last {
        out.push('└');
    } else {
        out.push('├');
    }
    out.push('─');
    out.push(' ');
    assert(out@ =~= old(out)@ + branch(last));
}

/// Appends `text` in the colour `color` to `out`, see [`painted`].
fn push_painted(out: &mut String, text: &str, color: &Option<String>, ascii: bool)
    ensures
        final(out)@ == old(out)@ + painted(text@, opt_view(*color), ascii),
{
    match color {
        Some(code) if !ascii => {
            out.push('\x1b');
            out.push('[');
            out.append(code.as_str());
            out.push('m');
            out.append(text);
            out.push('\x1b');
            out.push('[');
            out.push('0');
            out.push('m');
            assert(out@ =~= old(out)@ + painted(text@, opt_view(*color), ascii));
        },
        _ => {
            out.append(text);
        },
    }
}

impl Entry {
    /// Appends to `out` the lines of all below this entry, see
    /// [`Frame::lines_below`]. The entry stands at the end of `open_parents`
    /// and `parent_vals`.
    #[verifier::rlimit(50)]
    pub fn render_entries(
        &self,
        open_parents: &Vec<bool>,
        parent_vals: &Vec<u64>,
        frame: &Frame,
        out: &mut Vec<String>,
    )
        requires
            parent_vals.len() >= 1,
        ensures
            texts(final(out)@) == texts(old(out)@) + frame.lines_below(
                self@,
                open_parents@,
                nats(parent_vals@),
            ),
        decreases self,
    {
        let ghost start = texts(out@);
        let ghost open = open_parents@;
        let ghost chain = nats(parent_vals@);
        proof {
            lemma_view(*self);
        }
        match &self.entries {
            Some(entries) => {
                let levels: usize = open_parents.len();
                let fits: bool = levels < frame.tree_name_width / BRANCH;
                assert(fits == frame.fits(levels as nat));
                let mut i: usize = 0;
                let ghost views = entry_views(entries@);
                proof {
                    lemma_entry_views(entries@);
                    assert(views.take(0) == Seq::<EntryView>::empty());
                    assert(start + Seq::<Seq<char>>::empty() == start);
                }
                while i < entries.len()
                    invariant
                        i <= entries.len(),
                        self.entries == Some(*entries),
                        parent_vals.len() >= 1,
                        open == open_parents@,
                        chain == nats(parent_vals@),
                        views == entry_views(entries@),
                        views.len() == entries.len(),
                        forall|j: int| 0 <= j < entries.len() ==> (#[trigger] views[j]) == entries[j]@,
                        fits == frame.fits(open_parents.len() as nat),
                        texts(out@) == start + frame.lines_of_all(views.take(i as int), open, chain),
                    decreases entries.len() - i,
                {
                    let entry: &Entry = &entries[i];
                    let ghost before = texts(out@);
                    let ghost done = frame.lines_of_all(views.take(i as int), open, chain);
                    proof {
                        assert(views.take(i + 1).drop_last() == views.take(i as int));
                        assert(views.take(i + 1).last() == entry@);
                        assert(self.entries->0 == *entries);
                        lemma_view(*entry);
                    }
                    if fits {
                        let line: String = frame.fmt_line(entry, open_parents, parent_vals);
                        let ghost shown = out@;
                        out.push(line);
                        assert(texts(out@) =~= texts(shown).push(line@));
                        let op: Vec<bool> = extended(open_parents, entry.last);
                        let bytes: Vec<u64> = extended(parent_vals, entry.bytes);
                        assert(nats(bytes@) =~= chain.push(entry.bytes as nat));
                        entry.render_entries(&op, &bytes, frame, out);
                        assert(texts(out@) =~= before + frame.lines_of(entry@, open, chain));
                    } else {
                        assert(before + Seq::<Seq<char>>::empty() == before);
                    }
                    assert(texts(out@) =~= start + (done + frame.lines_of(entry@, open, chain)));
                    i = i + 1;
                }
                assert(views.take(i as int) == views);
            },
            None => {
                assert(start + Seq::<Seq<char>>::empty() == start);
            },
        }
    }

    /// The lines of the tree below this entry, for a terminal `term_width`
    /// columns wide, see [`rendering`].
    #[verifier::rlimit(50)]
    pub fn render(&self, bytes_flag: bool, ascii_flag: bool, term_width: Option<u16>) -> (lines: Vec<
        String,
    >)
        ensures
            texts(lines@) == rendering(self@, bytes_flag, ascii_flag, term_width),
    {
        proof {
            lemma_view(*self);
        }
        let frame: Frame = Frame::new(self, bytes_flag, ascii_flag, term_width);
        let mut first: String = String::new();
        first.push('[');
        first.push(' ');
        first.append(self.name.as_str());
        first.push(' ');
        let size: String = fmt_size_str(self.bytes, bytes_flag);
        first.append(size.as_str());
        first.push(' ');
        first.push(']');
        assert(first@ =~= root_line(self@, bytes_flag));
        let mut lines: Vec<String> = Vec::new();
        lines.push(first);
        assert(texts(lines@) =~= seq![root_line(self@, bytes_flag)]);
        let open_parents: Vec<bool> = Vec::new();
        let mut parent_vals: Vec<u64> = Vec::new();
        parent_vals.push(self.bytes);
        assert(nats(parent_vals@) =~= seq![self.bytes as nat]);
        assert(open_parents@ =~= Seq::<bool>::empty());
        self.render_entries(&open_parents, &parent_vals, &frame, &mut lines);
        lines
    }
}

/// Measures `roots` under the settings `cfg` and renders the result for a
/// terminal `term_width` columns wide: the lines of [`Entry::tree_of`], see
/// [`rendering`]. `None` where the size of the tree does not fit.
pub fn try_run(cfg: &Config, roots: &Vec<FsNode>, term_width: Option<u16>) -> (lines: Option<
    Vec<String>,
>)
    ensures
        match lines {
            Some(l) => Entry::tree_of(roots@, cfg).bytes <= u64::MAX && texts(l@) == rendering(
                Entry::tree_of(roots@, cfg),
                cfg.bytes_flag,
                cfg.ascii_flag,
                term_width,
            ),
            None => Entry::tree_of(roots@, cfg).bytes > u64::MAX,
        },
{
    match Entry::try_tree(roots, cfg) {
        Some(entry) => {
            proof {
                lemma_view(entry);
            }
            Some(entry.render(cfg.bytes_flag, cfg.ascii_flag, term_width))
        },
        None => None,
    }
}

/// Measures `roots` under the settings `cfg` and renders the result for a
/// terminal `term_width` columns wide: the lines of [`Entry::tree_of`], see
/// [`rendering`].
pub fn run(cfg: &Config, roots: &Vec<FsNode>, term_width: Option<u16>) -> (lines: Vec<String>)
    requires
        Entry::tree_of(roots@, cfg).bytes <= u64::MAX,
    ensures
        texts(lines@) == rendering(
            Entry::tree_of(roots@, cfg),
            cfg.bytes_flag,
            cfg.ascii_flag,
            term_width,
        ),
{
    try_run(cfg, roots, term_width).unwrap()
}

} // verus!
