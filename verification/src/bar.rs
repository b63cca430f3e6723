//! The bar that shows an entry's share of the levels above it.

use vstd::prelude::*;
use crate::text::{decimal, decimal_string, nats, push_right_aligned, right_aligned};

verus! {

/// Columns of a bar that hold no cell: two borders, and the percentage.
pub const BAR_FRAME: usize = 7;

/// The border of a bar.
pub const BORDER: char = '│';

/// The shades by level: plain characters, or five densities.
pub open spec fn shades(ascii: bool) -> Seq<char> {
    if ascii {
        seq![' ', '#']
    } else {
        seq![' ', '░', '▒', '▓', '█']
    }
}

/// `chain[j]`, and zero past its end.
pub open spec fn chain_at(chain: Seq<nat>, j: nat) -> nat {
    if j < chain.len() {
        chain[j as int]
    } else {
        0
    }
}

/// The cells that `part` takes of `cells` cells standing for `total`:
/// proportional, rounded down, never more than `cells`, none of nothing.
pub open spec fn share(part: nat, total: nat, cells: nat) -> nat {
    if total == 0 {
        0
    } else if part * cells / total > cells {
        cells
    } else {
        part * cells / total
    }
}

/// The cells left to level `k` of the chain: to the first level its share
/// of the whole bar, measured against `max`; to each further level its share
/// of the cells of the level before, measured against that level's size.
pub open spec fn level_cells(chain: Seq<nat>, max: nat, cells: nat, k: nat) -> nat
    decreases k,
{
    if k == 0 {
        share(chain_at(chain, 1), max, cells)
    } else {
        share(
            chain_at(chain, k + 1),
            chain_at(chain, k),
            level_cells(chain, max, cells, (k - 1) as nat),
        )
    }
}

/// How many levels have been entered once cell `x` is drawn. Going right,
/// the next level is entered at the first cell that lies beyond the part of
/// the bar which the cells of the level so far leave free; at most one level
/// is entered per cell.
pub open spec fn levels_entered(chain: Seq<nat>, max: nat, cells: nat, x: nat) -> nat
    decreases x,
{
    let k = if x == 0 {
        0
    } else {
        levels_entered(chain, max, cells, (x - 1) as nat)
    };
    if x > cells - level_cells(chain, max, cells, k) {
        k + 1
    } else {
        k
    }
}

/// The index of the shade after `k` levels were entered, for an entry
/// `depth` levels below the root and `count` shades: one shade per level,
/// and the final shade from the entry's own level on and once the shades run
/// out.
pub open spec fn shade_index(k: nat, depth: nat, count: nat) -> nat {
    if k == 0 {
        0
    } else if k >= depth || k >= count {
        (count - 1) as nat
    } else {
        k
    }
}

/// The character of cell `x`.
pub open spec fn cell(chain: Seq<nat>, max: nat, cells: nat, ascii: bool, x: nat) -> char {
    shades(ascii)[shade_index(
        levels_entered(chain, max, cells, x),
        (chain.len() - 1) as nat,
        shades(ascii).len(),
    ) as int]
}

/// The share of the entry in its parent, in percent, rounded down; zero of
/// an empty parent.
pub open spec fn percent(chain: Seq<nat>) -> nat
    recommends
        chain.len() >= 2,
{
    let parent = chain[chain.len() - 2];
    if parent == 0 {
        0
    } else {
        chain.last() * 100 / parent
    }
}

/// The cells of a bar `width` columns wide.
pub open spec fn bar_cells(width: nat) -> nat {
    if width >= BAR_FRAME {
        (width - BAR_FRAME) as nat
    } else {
        0
    }
}

/// The bar of the entry at the end of `chain`, which holds the sizes from
/// the root down to the entry: the cells between two borders, then the
/// percentage in three columns.
pub open spec fn bar_text(chain: Seq<nat>, max: nat, width: nat, ascii: bool) -> Seq<char> {
    seq![BORDER] + Seq::new(
        bar_cells(width),
        |x: int| cell(chain, max, bar_cells(width), ascii, x as nat),
    ) + seq![BORDER, ' '] + right_aligned(decimal(percent(chain)), 3) + seq!['%']
}

/// `chain[j]`, and zero past its end.
fn size_at(chain: &Vec<u64>, j: usize) -> (size: u64)
    ensures
        size == chain_at(nats(chain@), j as nat),
{
    if j < chain.len() {
        chain[j]
    } else {
        0
    }
}

/// The cells that `part` takes of `cells` cells standing for `total`, see
/// [`share`].
fn share_of(part: u64, total: u64, cells: u64) -> (taken: u64)
    ensures
        taken == share(part as nat, total as nat, cells as nat),
        taken <= cells,
{
    if total == 0 {
        0
    } else {
        assert(part * cells <= u64::MAX * u64::MAX) by (nonlinear_arith)
            requires
                part <= u64::MAX,
                cells <= u64::MAX,
        ;
        let scaled: u128 = (part as u128) * (cells as u128);
        let taken: u128 = scaled / (total as u128);
        if taken > cells as u128 {
            cells
        } else {
            taken as u64
        }
    }
}

/// The shade at `index`, see [`shades`].
fn shade_at(ascii: bool, index: usize) -> (c: char)
    requires
        index < shades(ascii).len(),
    ensures
        c == shades(ascii)[index as int],
{
    if ascii {
        if index == 0 {
            ' '
        } else {
            '#'
        }
    } else if index == 0 {
        ' '
    } else if index == 1 {
        '░'
    } else if index == 2 {
        '▒'
    } else if index == 3 {
        '▓'
    } else {
        '█'
    }
}

/// Draws the bar of the entry at the end of `bytes`, see [`bar_text`].
#[verifier::rlimit(50)]
pub fn fmt_bar(bytes: &Vec<u64>, max_bytes: u64, width: usize, ascii_flag: bool) -> (bar: String)
    requires
        bytes.len() >= 2,
    ensures
        bar@ == bar_text(nats(bytes@), max_bytes as nat, width as nat, ascii_flag),
{
    let cells: usize = if width >= BAR_FRAME {
        width - BAR_FRAME
    } else {
        0
    };
    let count: usize = if ascii_flag {
        2
    } else {
        5
    };
    let depth: usize = bytes.len() - 1;
    let mut bar: String = String::new();
    bar.push(BORDER);
    let mut left: u64 = share_of(bytes[1], max_bytes, cells as u64);
    let mut entered: usize = 0;
    let mut x: usize = 0;
    let ghost chain = nats(bytes@);
    let ghost max = max_bytes as nat;
    let ghost drawn = |i: int| cell(chain, max, cells as nat, ascii_flag, i as nat);
    while x < cells
        invariant
            x <= cells,
            cells == bar_cells(width as nat),
            chain == nats(bytes@),
            max == max_bytes,
            count == shades(ascii_flag).len(),
            depth == bytes.len() - 1,
            bytes.len() >= 2,
            entered <= x,
            x > 0 ==> entered == levels_entered(chain, max, cells as nat, (x - 1) as nat),
            x == 0 ==> entered == 0,
            left == level_cells(chain, max, cells as nat, entered as nat),
            left <= cells,
            drawn == |i: int| cell(chain, max, cells as nat, ascii_flag, i as nat),
            bar@ == seq![BORDER] + Seq::new(x as nat, drawn),
        decreases cells - x,
    {
        if x > cells - (left as usize) {
            left = share_of(size_at(bytes, entered + 2), size_at(bytes, entered + 1), left);
            entered = entered + 1;
        }
        let index: usize = if entered == 0 {
            0
        } else if entered >= depth || entered >= count {
            count - 1
        } else {
            entered
        };
        let c: char = shade_at(ascii_flag, index);
        bar.push(c);
        assert(c == drawn(x as int));
        assert(Seq::new((x + 1) as nat, drawn) == Seq::new(x as nat, drawn).push(c));
        assert(bar@ == seq![BORDER] + Seq::new((x + 1) as nat, drawn));
        x = x + 1;
    }
    let ghost framed = seq![BORDER] + Seq::new(
        bar_cells(width as nat),
        |x: int| cell(chain, max, bar_cells(width as nat), ascii_flag, x as nat),
    ) + seq![BORDER, ' '];
    bar.push(BORDER);
    bar.push(' ');
    assert(bar@ =~= framed);
    let parent: u64 = bytes[bytes.len() - 2];
    let share: u128 = if parent == 0 {
        0
    } else {
        (bytes[bytes.len() - 1] as u128) * 100 / (parent as u128)
    };
    let number: String = decimal_string(share);
    assert(number@ == decimal(percent(chain)));
    push_right_aligned(&mut bar, number.as_str(), 3);
    bar.push('%');
    bar
}

} // verus!
