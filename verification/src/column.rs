//! A name cut and padded to the columns it is given.

use vstd::prelude::*;
use crate::text::{push_spaces, spaces};
use crate::unicode::{display_width, grapheme_clusters, graphemes, joined, slice_texts, str_width};

verus! {

/// The first `n` of `widths` added up.
pub open spec fn width_sum(widths: Seq<nat>, n: int) -> nat
    decreases n,
{
    if n <= 0 {
        0
    } else {
        width_sum(widths, n - 1) + widths[n - 1]
    }
}

/// How many clusters of these widths are kept in `budget` columns: those
/// from the first up to the one that would go beyond the budget.
pub open spec fn fitting(widths: Seq<nat>, budget: nat) -> nat
    decreases widths.len(),
{
    if widths.len() == 0 || widths[0] > budget {
        0
    } else {
        1 + fitting(widths.drop_first(), (budget - widths[0]) as nat)
    }
}

/// The clusters that fit into `budget` columns, then spaces for the columns
/// that they leave.
pub open spec fn fitted(clusters: Seq<Seq<char>>, widths: Seq<nat>, budget: nat) -> Seq<char> {
    let n = fitting(widths, budget);
    joined(clusters.take(n as int)) + spaces((budget - width_sum(widths, n as int)) as nat)
}

/// The display width of each cluster.
pub open spec fn widths_of(clusters: Seq<Seq<char>>) -> Seq<nat> {
    clusters.map_values(|c: Seq<char>| display_width(c))
}

/// `widths` as numbers without bound.
pub open spec fn as_nats(widths: Seq<usize>) -> Seq<nat> {
    widths.map_values(|w: usize| w as nat)
}

/// What is kept is a number of whole clusters from the first on; their
/// widths stay within the budget; and the cluster behind them, if there is
/// one, would go beyond it.
pub proof fn lemma_fitting(widths: Seq<nat>, budget: nat)
    ensures
        fitting(widths, budget) <= widths.len(),
        width_sum(widths, fitting(widths, budget) as int) <= budget,
        fitting(widths, budget) < widths.len() ==> width_sum(
            widths,
            (fitting(widths, budget) + 1) as int,
        ) > budget,
    decreases widths.len(),
{
    if !(widths.len() == 0 || widths[0] > budget) {
        let rest = widths.drop_first();
        let left = (budget - widths[0]) as nat;
        lemma_fitting(rest, left);
        lemma_width_sum_shift(widths, fitting(rest, left) as int);
        if fitting(rest, left) < rest.len() {
            lemma_width_sum_shift(widths, (fitting(rest, left) + 1) as int);
        }
    } else {
        if widths.len() > 0 {
            assert(width_sum(widths, 1) == width_sum(widths, 0) + widths[0]);
        }
    }
}

/// Sums from the second width on, and from the first.
pub proof fn lemma_width_sum_shift(widths: Seq<nat>, n: int)
    requires
        0 <= n < widths.len(),
    ensures
        width_sum(widths, n + 1) == widths[0] + width_sum(widths.drop_first(), n),
    decreases n,
{
    if n > 0 {
        lemma_width_sum_shift(widths, n - 1);
        assert(widths.drop_first()[n - 1] == widths[n]);
    } else {
        assert(width_sum(widths, 1) == width_sum(widths, 0) + widths[0]);
    }
}

/// Counts the clusters that fit into `budget` columns, see [`fitting`], and
/// the columns that they take.
pub fn fit_clusters(widths: &Vec<usize>, budget: usize) -> (kept: (usize, usize))
    ensures
        kept.0 == fitting(as_nats(widths@), budget as nat),
        kept.1 == width_sum(as_nats(widths@), kept.0 as int),
        kept.0 <= widths.len(),
        kept.1 <= budget,
{
    let mut n: usize = 0;
    let mut used: usize = 0;
    let ghost all = as_nats(widths@);
    assert(all.skip(0) == all);
    while n < widths.len() && widths[n] <= budget - used
        invariant
            n <= widths.len(),
            used <= budget,
            all == as_nats(widths@),
            used == width_sum(all, n as int),
            fitting(all, budget as nat) == n + fitting(all.skip(n as int), (budget - used) as nat),
        decreases widths.len() - n,
    {
        assert(all.skip(n as int).drop_first() == all.skip(n + 1));
        assert(all[n as int] == widths[n as int]);
        used = used + widths[n];
        n = n + 1;
    }
    assert(n < widths.len() ==> all.skip(n as int)[0] == widths[n as int]);
    (n, used)
}

/// Puts the clusters that fit into `budget` columns in a row and fills the
/// columns left with spaces, see [`fitted`]. `widths` holds the width of
/// each cluster.
pub fn fit_name(clusters: &Vec<&str>, widths: &Vec<usize>, budget: usize) -> (column: String)
    requires
        clusters.len() == widths.len(),
    ensures
        column@ == fitted(slice_texts(clusters@), as_nats(widths@), budget as nat),
{
    let (n, used) = fit_clusters(widths, budget);
    let ghost texts = slice_texts(clusters@);
    let mut column: String = String::new();
    let mut i: usize = 0;
    assert(texts.take(0) == Seq::<Seq<char>>::empty());
    while i < n
        invariant
            i <= n <= clusters.len(),
            texts == slice_texts(clusters@),
            column@ == joined(texts.take(i as int)),
        decreases n - i,
    {
        assert(texts.take(i + 1).drop_last() == texts.take(i as int));
        column.append(clusters[i]);
        i = i + 1;
    }
    push_spaces(&mut column, budget - used);
    column
}

/// The column of a name: its extended grapheme clusters as far as they fit
/// into `budget` columns by their display widths, then spaces for the
/// columns left.
pub open spec fn name_column(name: Seq<char>, budget: nat) -> Seq<char> {
    let clusters = grapheme_clusters(name, true);
    fitted(clusters, widths_of(clusters), budget)
}

/// What is kept of a name in `budget` columns.
pub open spec fn kept_name(name: Seq<char>, budget: nat) -> Seq<char> {
    let clusters = grapheme_clusters(name, true);
    joined(clusters.take(fitting(widths_of(clusters), budget) as int))
}

/// The columns that the clusters kept of a name take.
pub open spec fn kept_width(name: Seq<char>, budget: nat) -> nat {
    let clusters = grapheme_clusters(name, true);
    width_sum(widths_of(clusters), fitting(widths_of(clusters), budget) as int)
}

/// Law of truncation: a name is cut between clusters only, and its column
/// is exactly as wide as asked. What is kept is a number of whole clusters
/// from the first on; their widths add up to no more than the budget, and
/// spaces fill what they leave; the first cluster left out, if any, would
/// not have fitted.
pub proof fn law_name_column(name: Seq<char>, budget: nat)
    ensures
        ({
            let clusters = grapheme_clusters(name, true);
            let widths = widths_of(clusters);
            let n = fitting(widths, budget);
            &&& n <= clusters.len()
            &&& kept_name(name, budget) == joined(clusters.take(n as int))
            &&& kept_width(name, budget) <= budget
            &&& name_column(name, budget) == kept_name(name, budget) + spaces(
                (budget - kept_width(name, budget)) as nat,
            )
            &&& n < clusters.len() ==> kept_width(name, budget) + widths[n as int] > budget
        }),
{
    let clusters = grapheme_clusters(name, true);
    lemma_fitting(widths_of(clusters), budget);
}

/// The first parts of a text in parts make up a prefix of the text.
pub proof fn lemma_joined_prefix(parts: Seq<Seq<char>>, n: int)
    requires
        0 <= n <= parts.len(),
    ensures
        joined(parts.take(n)).is_prefix_of(joined(parts)),
    decreases parts.len() - n,
{
    if n < parts.len() {
        lemma_joined_prefix(parts, n + 1);
        assert(parts.take(n + 1).drop_last() == parts.take(n));
    } else {
        assert(parts.take(n) == parts);
    }
}

/// Cuts and pads `name` to `budget` columns, see [`name_column`].
pub fn fit_column(name: &str, budget: usize) -> (column: String)
    ensures
        column@ == name_column(name@, budget as nat),
        column@ == kept_name(name@, budget as nat) + spaces(
            (budget - kept_width(name@, budget as nat)) as nat,
        ),
        kept_name(name@, budget as nat).is_prefix_of(name@),
{
    let clusters: Vec<&str> = graphemes(name, true);
    proof {
        let parts = grapheme_clusters(name@, true);
        lemma_fitting(widths_of(parts), budget as nat);
        lemma_joined_prefix(parts, fitting(widths_of(parts), budget as nat) as int);
    }
    let mut widths: Vec<usize> = Vec::new();
    let mut i: usize = 0;
    let ghost texts = slice_texts(clusters@);
    while i < clusters.len()
        invariant
            i <= clusters.len(),
            texts == slice_texts(clusters@),
            widths.len() == i,
            as_nats(widths@) == widths_of(texts).take(i as int),
        decreases clusters.len() - i,
    {
        let w: usize = str_width(clusters[i]);
        let ghost before = widths@;
        widths.push(w);
        assert(as_nats(widths@) =~= as_nats(before).push(w as nat));
        assert(as_nats(widths@) =~= widths_of(texts).take(i + 1));
        i = i + 1;
    }
    assert(widths_of(texts).take(i as int) == widths_of(texts));
    fit_name(&clusters, &widths, budget)
}

} // verus!
