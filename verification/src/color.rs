//! The colour table, and the colour that a node is drawn in.

use vstd::prelude::*;
use crate::node::{try_is_symlink, FsNode};
use crate::text::{chars_of, find, find_from, lemma_find_bounds, text_of, without};

verus! {

/// A table from class keys (`di`, `ln`, `*.ext`, ...) to colour codes.
/// Assigning a key again replaces its code.
#[derive(Debug)]
pub struct ColorDict {
    pairs: Vec<(String, String)>,
}

/// The table that results from assigning `pairs` in order.
pub open spec fn table_of(pairs: Seq<(Seq<char>, Seq<char>)>) -> Map<Seq<char>, Seq<char>>
    decreases pairs.len(),
{
    if pairs.len() == 0 {
        Map::empty()
    } else {
        table_of(pairs.drop_last()).insert(pairs.last().0, pairs.last().1)
    }
}

/// Key and code of each pair as plain text.
pub open spec fn pairs_view(pairs: Seq<(String, String)>) -> Seq<(Seq<char>, Seq<char>)> {
    pairs.map_values(|p: (String, String)| (p.0@, p.1@))
}

impl View for ColorDict {
    type V = Map<Seq<char>, Seq<char>>;

    closed spec fn view(&self) -> Map<Seq<char>, Seq<char>> {
        table_of(pairs_view(self.pairs@))
    }
}

/// The code that `table` holds for `key`, if any.
pub open spec fn lookup(table: Map<Seq<char>, Seq<char>>, key: Seq<char>) -> Option<Seq<char>> {
    if table.contains_key(key) {
        Some(table[key])
    } else {
        None
    }
}

/// The view of an optional text.
pub open spec fn opt_view(s: Option<String>) -> Option<Seq<char>> {
    match s {
        Some(t) => Some(t@),
        None => None,
    }
}

impl ColorDict {
    /// The empty table.
    pub fn new() -> (dict: ColorDict)
        ensures
            dict@ == Map::<Seq<char>, Seq<char>>::empty(),
    {
        ColorDict { pairs: Vec::new() }
    }

    /// Assigns `code` to `key`.
    pub fn insert(&mut self, key: String, code: String)
        ensures
            final(self)@ == old(self)@.insert(key@, code@),
    {
        self.pairs.push((key, code));
        assert(pairs_view(self.pairs@).drop_last() == pairs_view(old(self).pairs@));
    }

    /// The code assigned to `key`.
    pub fn get(&self, key: &str) -> (code: Option<String>)
        ensures
            opt_view(code) == lookup(self@, key@),
    {
        let wanted: String = key.to_owned();
        let ghost all = pairs_view(self.pairs@);
        let mut i: usize = self.pairs.len();
        assert(all.take(i as int) == all);
        while i > 0
            invariant
                i <= self.pairs.len(),
                wanted@ == key@,
                all == pairs_view(self.pairs@),
                lookup(table_of(all), key@) == lookup(table_of(all.take(i as int)), key@),
            decreases i,
        {
            i = i - 1;
            assert(all.take(i + 1).drop_last() == all.take(i as int));
            if self.pairs[i].0 == wanted {
                return Some(self.pairs[i].1.clone());
            }
        }
        None
    }
}

/// Key and code of one field of a colour list. Double quotes in the field
/// are dropped. The key is what stands before the first `=`, the code what
/// stands between the first `=` and the second, or the end. A field without
/// `=` holds no pair.
pub open spec fn color_pair(field: Seq<char>) -> Option<(Seq<char>, Seq<char>)> {
    let line = without(field, '"');
    let eq = find(line, '=');
    if eq == line.len() {
        None
    } else {
        let rest = line.skip(eq + 1);
        Some((line.take(eq), rest.take(find(rest, '='))))
    }
}

/// The pairs of a colour list: fields separated by `:`, read up to the first
/// empty field. `None` where one of the fields read holds no pair.
pub open spec fn color_pairs(list: Seq<char>) -> Option<Seq<(Seq<char>, Seq<char>)>>
    decreases list.len(),
{
    let end = find(list, ':');
    if end == 0 {
        Some(Seq::empty())
    } else {
        match color_pair(list.take(end)) {
            None => None,
            Some(pair) => {
                proof {
                    lemma_find_bounds(list, ':');
                }
                match color_pairs(after_field(list, end)) {
                    None => None,
                    Some(more) => Some(seq![pair] + more),
                }
            },
        }
    }
}

/// What follows the field that ends at `end` and its separator.
pub open spec fn after_field(list: Seq<char>, end: int) -> Seq<char> {
    if end < list.len() {
        list.skip(end + 1)
    } else {
        Seq::empty()
    }
}

/// `first` followed by what `rest` holds, if it holds anything.
spec fn followed_by(
    first: Seq<(Seq<char>, Seq<char>)>,
    rest: Option<Seq<(Seq<char>, Seq<char>)>>,
) -> Option<Seq<(Seq<char>, Seq<char>)>> {
    match rest {
        None => None,
        Some(more) => Some(first + more),
    }
}

/// The characters of `v[from..to]` other than `c`.
fn copy_without(v: &Vec<char>, from: usize, to: usize, c: char) -> (line: Vec<char>)
    requires
        from <= to <= v.len(),
    ensures
        line@ == without(v@.subrange(from as int, to as int), c),
{
    let mut line: Vec<char> = Vec::new();
    let mut i: usize = from;
    while i < to
        invariant
            from <= i <= to <= v.len(),
            line@ == without(v@.subrange(from as int, i as int), c),
        decreases to - i,
    {
        assert(v@.subrange(from as int, i + 1).drop_last() == v@.subrange(from as int, i as int));
        if v[i] != c {
            line.push(v[i]);
        }
        i = i + 1;
    }
    line
}

/// Reads a colour list in the form of the `LS_COLORS` variable, see
/// [`color_pairs`]; later pairs replace earlier ones with the same key.
#[verifier::rlimit(50)]
pub fn create_color_dict(list: &str) -> (dict: Option<ColorDict>)
    ensures
        match color_pairs(list@) {
            Some(pairs) => dict is Some && dict->0@ == table_of(pairs),
            None => dict is None,
        },
{
    let chars: Vec<char> = chars_of(list);
    let mut dict = ColorDict::new();
    let ghost mut done: Seq<(Seq<char>, Seq<char>)> = Seq::empty();
    let mut start: usize = 0;
    assert(chars@.skip(0) == chars@);
    loop
        invariant
            start <= chars.len(),
            chars@ == list@,
            dict@ == table_of(done),
            color_pairs(list@) == followed_by(done, color_pairs(chars@.skip(start as int))),
        decreases chars.len() - start,
    {
        let ghost rest = chars@.skip(start as int);
        let end: usize = find_from(&chars, start, ':');
        if end == start {
            assert(done + Seq::<(Seq<char>, Seq<char>)>::empty() == done);
            return Some(dict);
        }
        assert(rest.take(end - start) == chars@.subrange(start as int, end as int));
        let line: Vec<char> = copy_without(&chars, start, end, '"');
        let eq: usize = find_from(&line, 0, '=');
        assert(line@.skip(0) == line@);
        if eq == line.len() {
            return None;
        }
        let stop: usize = find_from(&line, eq + 1, '=');
        let key: String = text_of(&line, 0, eq);
        let code: String = text_of(&line, eq + 1, stop);
        proof {
            let tail = line@.skip(eq + 1);
            lemma_find_bounds(tail, '=');
            assert(tail.take(find(tail, '=')) == line@.subrange(eq + 1, stop as int));
            assert(color_pair(rest.take(end - start)) == Some((key@, code@)));
            let after = after_field(rest, end - start);
            assert(seq![(key@, code@)] + Seq::<(Seq<char>, Seq<char>)>::empty() == seq![
                (key@, code@),
            ]);
            if end < chars.len() {
                assert(after == chars@.skip(end + 1));
            } else {
                assert(after == chars@.skip(end as int));
                assert(find(chars@.skip(end as int), ':') == 0);
            }
            assert(forall|more: Seq<(Seq<char>, Seq<char>)>|
                done.push((key@, code@)) + more == done + (seq![(key@, code@)] + more));
            assert(done.push((key@, code@)).drop_last() == done);
        }
        dict.insert(key, code);
        proof {
            done = done.push((key@, code@));
        }
        start = if end < chars.len() {
            end + 1
        } else {
            end
        };
    }
}

/// The permission bit "writable by others".
pub const OTHER_WRITABLE: u32 = 0o002;

/// The three execute permission bits.
pub const ANY_EXECUTE: u32 = 0o111;

/// The key under which files with extension `ext` are looked up.
pub open spec fn extension_key(ext: Seq<char>) -> Seq<char> {
    seq!['*', '.'] + ext
}

/// The colour of a node that is no symbolic link: the first of its classes
/// that `table` holds. A directory tries `ow` where others may write to it,
/// then `di`; a regular file with an execute bit tries `ex`; these three need
/// the node's metadata. Then comes the extension key. A regular file ends
/// with `fi`, anything else with `bd`.
pub open spec fn color_of_plain(node: &FsNode, table: Map<Seq<char>, Seq<char>>) -> Option<
    Seq<char>,
> {
    let known = node.metadata is Some;
    let mode = node.metadata->0.mode;
    if known && node.is_dir && mode & OTHER_WRITABLE != 0 && table.contains_key("ow"@) {
        Some(table["ow"@])
    } else if known && node.is_dir && table.contains_key("di"@) {
        Some(table["di"@])
    } else if known && node.is_file && mode & ANY_EXECUTE != 0 && table.contains_key("ex"@) {
        Some(table["ex"@])
    } else if node.extension is Some && table.contains_key(extension_key(node.extension->0@)) {
        Some(table[extension_key(node.extension->0@)])
    } else if node.is_file {
        lookup(table, "fi"@)
    } else {
        lookup(table, "bd"@)
    }
}

/// The colour of a node: a symbolic link has the code of `ln` where its
/// target exists and of `or` where it dangles, and no colour where the table
/// lacks that key; any other node goes by [`color_of_plain`].
pub open spec fn color_of(node: &FsNode, table: Map<Seq<char>, Seq<char>>) -> Option<Seq<char>> {
    if node.is_link() {
        if node.target_exists {
            lookup(table, "ln"@)
        } else {
            lookup(table, "or"@)
        }
    } else {
        color_of_plain(node, table)
    }
}

/// The colour code that `color_dict` gives the node, see [`color_of`].
pub fn color_from_path(node: &FsNode, color_dict: &ColorDict) -> (color: Option<String>)
    ensures
        opt_view(color) == color_of(node, color_dict@),
{
    if try_is_symlink(node) {
        return if node.target_exists {
            color_dict.get("ln")
        } else {
            color_dict.get("or")
        };
    }
    if let Some(meta) = node.metadata {
        if node.is_dir {
            if meta.mode & OTHER_WRITABLE != 0 {
                if let Some(col) = color_dict.get("ow") {
                    return Some(col);
                }
            }
            if let Some(col) = color_dict.get("di") {
                return Some(col);
            }
        }
        if node.is_file && meta.mode & ANY_EXECUTE != 0 {
            if let Some(col) = color_dict.get("ex") {
                return Some(col);
            }
        }
    }
    if let Some(ext) = &node.extension {
        let mut key: String = String::new();
        key.push('*');
        key.push('.');
        key.append(ext.as_str());
        assert(key@ == extension_key(ext@));
        if let Some(col) = color_dict.get(key.as_str()) {
            return Some(col);
        }
    }
    if node.is_file {
        color_dict.get("fi")
    } else {
        color_dict.get("bd")
    }
}

} // verus!
