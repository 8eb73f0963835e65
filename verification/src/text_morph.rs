//! Matching the character clusters of two texts for a morph.
//!
//! A morph keeps the clusters the two texts share and animates the rest. The
//! longest common subsequence of the two cluster lists is kept in place, as
//! far as possible in reading order; each remaining source cluster then takes
//! the nearest unmatched target cluster with the same text. Distances come
//! from the layout as order keys: `keys[s][t]` orders target `t` by its
//! distance from source `s`, ties going to the lower target index.

use unicode_segmentation::UnicodeSegmentation;
use vstd::prelude::*;
use vstd::string::StrSliceExecFns;

verus! {

/// The larger of two lengths.
pub open spec fn larger(a: nat, b: nat) -> nat {
    if a >= b {
        a
    } else {
        b
    }
}

/// The length of the longest common subsequence of `from[i..]` and `to[j..]`.
pub open spec fn common_length(from: Seq<Seq<char>>, to: Seq<Seq<char>>, i: nat, j: nat) -> nat
    decreases from.len() + to.len() - i - j,
{
    if i >= from.len() || j >= to.len() {
        0
    } else if from[i as int] == to[j as int] {
        1 + common_length(from, to, i + 1, j + 1)
    } else {
        larger(common_length(from, to, i + 1, j), common_length(from, to, i, j + 1))
    }
}

/// A common subsequence of `from[i..]` is no longer than it.
pub proof fn lemma_common_length_bound(from: Seq<Seq<char>>, to: Seq<Seq<char>>, i: nat, j: nat)
    requires
        i <= from.len(),
    ensures
        common_length(from, to, i, j) <= from.len() - i,
    decreases from.len() + to.len() - i - j,
{
    if i >= from.len() || j >= to.len() {
    } else if from[i as int] == to[j as int] {
        lemma_common_length_bound(from, to, i + 1, j + 1);
    } else {
        lemma_common_length_bound(from, to, i + 1, j);
        lemma_common_length_bound(from, to, i, j + 1);
    }
}

/// The in-order matching along the longest common subsequence, from source
/// `i` and target `j` on, recorded into `partners` and `taken`.
pub open spec fn common_walk(
    from: Seq<Seq<char>>,
    to: Seq<Seq<char>>,
    i: nat,
    j: nat,
    partners: Seq<Option<usize>>,
    taken: Seq<bool>,
) -> (Seq<Option<usize>>, Seq<bool>)
    decreases from.len() + to.len() - i - j,
{
    if i >= from.len() || j >= to.len() {
        (partners, taken)
    } else if from[i as int] == to[j as int] {
        common_walk(
            from,
            to,
            i + 1,
            j + 1,
            partners.update(i as int, Some(j as usize)),
            taken.update(j as int, true),
        )
    } else if common_length(from, to, i + 1, j) >= common_length(from, to, i, j + 1) {
        common_walk(from, to, i + 1, j, partners, taken)
    } else {
        common_walk(from, to, i, j + 1, partners, taken)
    }
}

/// Target `t` can receive source `s`: it is free and holds the same text.
pub open spec fn eligible(
    from: Seq<Seq<char>>,
    to: Seq<Seq<char>>,
    taken: Seq<bool>,
    s: int,
    t: int,
) -> bool {
    !taken[t] && from[s] == to[t]
}

/// The nearest eligible target of source `s` among targets `0..upto`, the
/// lowest index among equally near ones.
pub open spec fn nearest_target(
    from: Seq<Seq<char>>,
    to: Seq<Seq<char>>,
    keys: Seq<Seq<u32>>,
    taken: Seq<bool>,
    s: nat,
    upto: nat,
) -> Option<usize>
    decreases upto,
{
    if upto == 0 {
        None
    } else {
        let t = (upto - 1) as nat;
        let best = nearest_target(from, to, keys, taken, s, t);
        if eligible(from, to, taken, s as int, t as int) && (best is None || keys[s as int][t as int]
            < keys[s as int][best->0 as int]) {
            Some(t as usize)
        } else {
            best
        }
    }
}

/// Gives every unmatched source from `s` on its nearest eligible target.
pub open spec fn match_remaining(
    from: Seq<Seq<char>>,
    to: Seq<Seq<char>>,
    keys: Seq<Seq<u32>>,
    partners: Seq<Option<usize>>,
    taken: Seq<bool>,
    s: nat,
) -> Seq<Option<usize>>
    decreases from.len() - s,
{
    if s >= from.len() {
        partners
    } else if partners[s as int] is Some {
        match_remaining(from, to, keys, partners, taken, s + 1)
    } else {
        match nearest_target(from, to, keys, taken, s, to.len()) {
            Some(t) => match_remaining(
                from,
                to,
                keys,
                partners.update(s as int, Some(t)),
                taken.update(t as int, true),
                s + 1,
            ),
            None => match_remaining(from, to, keys, partners, taken, s + 1),
        }
    }
}

/// The target each source cluster is matched with, if any.
pub open spec fn cluster_partners(
    from: Seq<Seq<char>>,
    to: Seq<Seq<char>>,
    keys: Seq<Seq<u32>>,
) -> Seq<Option<usize>> {
    let (partners, taken) = common_walk(
        from,
        to,
        0,
        0,
        Seq::new(from.len(), |i: int| None),
        Seq::new(to.len(), |i: int| false),
    );
    match_remaining(from, to, keys, partners, taken, 0)
}

/// The matched pairs of sources `0..upto`, in source order.
pub open spec fn partner_pairs(partners: Seq<Option<usize>>, upto: nat) -> Seq<(usize, usize)>
    decreases upto,
{
    if upto == 0 {
        seq![]
    } else {
        let s = (upto - 1) as nat;
        match partners[s as int] {
            Some(t) => partner_pairs(partners, s).push((s as usize, t)),
            None => partner_pairs(partners, s),
        }
    }
}

/// The matched cluster pairs of a morph from the clusters `from` to the
/// clusters `to`, in source order.
pub open spec fn matched_clusters(
    from: Seq<Seq<char>>,
    to: Seq<Seq<char>>,
    keys: Seq<Seq<u32>>,
) -> Seq<(usize, usize)> {
    partner_pairs(cluster_partners(from, to, keys), from.len())
}

/// The texts of a list of clusters.
pub open spec fn texts(clusters: Seq<String>) -> Seq<Seq<char>> {
    clusters.map_values(|text: String| text@)
}

/// A row of `columns` zeros.
fn zero_row(columns: usize) -> (row: Vec<usize>)
    ensures
        row@.len() == columns,
        forall|j: int| 0 <= j < columns ==> #[trigger] row@[j] == 0,
{
    let mut row: Vec<usize> = Vec::new();
    while row.len() < columns
        invariant
            row@.len() <= columns,
            forall|j: int| 0 <= j < row@.len() ==> #[trigger] row@[j] == 0,
        decreases columns - row@.len(),
    {
        row.push(0);
    }
    row
}

/// The length table of the longest common subsequences of suffixes: entry
/// `[i][j]` for `from[i..]` and `to[j..]`.
fn common_length_table(from: &Vec<String>, to: &Vec<String>) -> (table: Vec<Vec<usize>>)
    requires
        from@.len() < usize::MAX,
        to@.len() < usize::MAX,
    ensures
        table@.len() == from@.len() + 1,
        forall|i: int| 0 <= i <= from@.len() ==> #[trigger] table@[i]@.len() == to@.len() + 1,
        forall|i: int, j: int|
            0 <= i <= from@.len() && 0 <= j <= to@.len() ==> #[trigger] table@[i]@[j]
                == common_length(texts(from@), texts(to@), i as nat, j as nat),
{
    let ghost f = texts(from@);
    let ghost g = texts(to@);
    let columns = to.len() + 1;
    let mut table: Vec<Vec<usize>> = Vec::new();
    while table.len() < from.len() + 1
        invariant
            from@.len() < usize::MAX,
            columns == to@.len() + 1,
            table@.len() <= from@.len() + 1,
            forall|i: int| 0 <= i < table@.len() ==> #[trigger] table@[i]@.len() == columns,
            forall|i: int, j: int|
                0 <= i < table@.len() && 0 <= j < columns ==> #[trigger] table@[i]@[j] == 0,
        decreases from@.len() + 1 - table@.len(),
    {
        table.push(zero_row(columns));
    }
    assert forall|j: int| 0 <= j <= to@.len() implies #[trigger] table@[from@.len() as int]@[j]
        == common_length(f, g, from@.len() as nat, j as nat) by {}
    let mut i = from.len();
    while i > 0
        invariant
            from@.len() < usize::MAX,
            f == texts(from@),
            g == texts(to@),
            columns == to@.len() + 1,
            i <= from@.len(),
            table@.len() == from@.len() + 1,
            forall|k: int| 0 <= k <= from@.len() ==> #[trigger] table@[k]@.len() == columns,
            forall|k: int, j: int|
                i <= k <= from@.len() && 0 <= j <= to@.len() ==> #[trigger] table@[k]@[j]
                    == common_length(f, g, k as nat, j as nat),
            forall|k: int, j: int|
                0 <= k < i && 0 <= j <= to@.len() ==> #[trigger] table@[k]@[j] == 0,
        decreases i,
    {
        let row_index = i - 1;
        let mut row: Vec<usize> = zero_row(columns);
        let mut j = to.len();
        while j > 0
            invariant
                from@.len() < usize::MAX,
                f == texts(from@),
                g == texts(to@),
                columns == to@.len() + 1,
                row_index + 1 == i,
                i <= from@.len(),
                j <= to@.len(),
                row@.len() == columns,
                table@.len() == from@.len() + 1,
                forall|k: int| 0 <= k <= from@.len() ==> #[trigger] table@[k]@.len() == columns,
                forall|k: int, l: int|
                    i <= k <= from@.len() && 0 <= l <= to@.len() ==> #[trigger] table@[k]@[l]
                        == common_length(f, g, k as nat, l as nat),
                row@[to@.len() as int] == 0,
                forall|l: int|
                    j <= l <= to@.len() ==> #[trigger] row@[l] == common_length(
                        f,
                        g,
                        row_index as nat,
                        l as nat,
                    ),
            decreases j,
        {
            let column = j - 1;
            proof {
                assert(f[row_index as int] == from@[row_index as int]@);
                assert(g[column as int] == to@[column as int]@);
                lemma_common_length_bound(f, g, (row_index + 1) as nat, (column + 1) as nat);
                assert(table@[row_index + 1]@[column + 1] == common_length(
                    f,
                    g,
                    (row_index + 1) as nat,
                    (column + 1) as nat,
                ));
            }
            let value = if from[row_index] == to[column] {
                1 + table[row_index + 1][column + 1]
            } else {
                let down = table[row_index + 1][column];
                let right = row[column + 1];
                if down >= right {
                    down
                } else {
                    right
                }
            };
            row.set(column, value);
            j = column;
        }
        assert(row@[to@.len() as int] == common_length(f, g, row_index as nat, to@.len() as nat));
        table.set(row_index, row);
        i = row_index;
    }
    table
}

/// Every matched source has a free-no-more target of the same text, and no
/// target is matched twice.
pub open spec fn consistent_partners(
    from: Seq<Seq<char>>,
    to: Seq<Seq<char>>,
    partners: Seq<Option<usize>>,
    taken: Seq<bool>,
) -> bool {
    &&& partners.len() == from.len()
    &&& taken.len() == to.len()
    &&& forall|s: int|
        0 <= s < partners.len() && #[trigger] partners[s] is Some ==> {
            let t = partners[s]->0 as int;
            &&& t < to.len()
            &&& taken[t]
            &&& from[s] == to[t]
        }
    &&& forall|a: int, b: int|
        0 <= a < b < partners.len() && #[trigger] partners[a] is Some
            && #[trigger] partners[b] is Some ==> partners[a]->0 != partners[b]->0
}

proof fn lemma_walk_consistent(
    from: Seq<Seq<char>>,
    to: Seq<Seq<char>>,
    i: nat,
    j: nat,
    partners: Seq<Option<usize>>,
    taken: Seq<bool>,
)
    requires
        consistent_partners(from, to, partners, taken),
        j <= to.len(),
        to.len() <= usize::MAX,
        forall|t: int| j <= t < to.len() ==> !taken[t],
    ensures
        consistent_partners(
            from,
            to,
            common_walk(from, to, i, j, partners, taken).0,
            common_walk(from, to, i, j, partners, taken).1,
        ),
    decreases from.len() + to.len() - i - j,
{
    if i >= from.len() || j >= to.len() {
    } else if from[i as int] == to[j as int] {
        let p2 = partners.update(i as int, Some(j as usize));
        let t2 = taken.update(j as int, true);
        assert forall|a: int, b: int|
            0 <= a < b < p2.len() && #[trigger] p2[a] is Some && #[trigger] p2[b] is Some implies p2[a]->0
            != p2[b]->0 by {
            if a == i || b == i {
                if a == i && partners[b] is Some {
                    assert(taken[partners[b]->0 as int]);
                }
                if b == i && partners[a] is Some {
                    assert(taken[partners[a]->0 as int]);
                }
            }
        }
        lemma_walk_consistent(from, to, i + 1, j + 1, p2, t2);
    } else if common_length(from, to, i + 1, j) >= common_length(from, to, i, j + 1) {
        lemma_walk_consistent(from, to, i + 1, j, partners, taken);
    } else {
        lemma_walk_consistent(from, to, i, j + 1, partners, taken);
    }
}

proof fn lemma_nearest_is_eligible(
    from: Seq<Seq<char>>,
    to: Seq<Seq<char>>,
    keys: Seq<Seq<u32>>,
    taken: Seq<bool>,
    s: nat,
    upto: nat,
)
    requires
        upto <= usize::MAX,
    ensures
        nearest_target(from, to, keys, taken, s, upto) matches Some(t) ==> t < upto && eligible(
            from,
            to,
            taken,
            s as int,
            t as int,
        ),
    decreases upto,
{
    if upto > 0 {
        lemma_nearest_is_eligible(from, to, keys, taken, s, (upto - 1) as nat);
    }
}

/// Every matched source has a target of the same text, and no target is
/// matched twice.
pub open spec fn valid_partners(from: Seq<Seq<char>>, to: Seq<Seq<char>>, partners: Seq<Option<usize>>) -> bool {
    &&& partners.len() == from.len()
    &&& forall|s: int|
        0 <= s < partners.len() && #[trigger] partners[s] is Some ==> {
            let t = partners[s]->0 as int;
            &&& t < to.len()
            &&& from[s] == to[t]
        }
    &&& forall|a: int, b: int|
        0 <= a < b < partners.len() && #[trigger] partners[a] is Some
            && #[trigger] partners[b] is Some ==> partners[a]->0 != partners[b]->0
}

proof fn lemma_remaining_consistent(
    from: Seq<Seq<char>>,
    to: Seq<Seq<char>>,
    keys: Seq<Seq<u32>>,
    partners: Seq<Option<usize>>,
    taken: Seq<bool>,
    s: nat,
)
    requires
        consistent_partners(from, to, partners, taken),
        to.len() <= usize::MAX,
    ensures
        valid_partners(from, to, match_remaining(from, to, keys, partners, taken, s)),
    decreases from.len() - s,
{
    if s >= from.len() {
    } else if partners[s as int] is Some {
        lemma_remaining_consistent(from, to, keys, partners, taken, s + 1);
    } else {
        lemma_nearest_is_eligible(from, to, keys, taken, s, to.len());
        match nearest_target(from, to, keys, taken, s, to.len()) {
            Some(t) => {
                let p2 = partners.update(s as int, Some(t));
                let t2 = taken.update(t as int, true);
                assert forall|a: int, b: int|
                    0 <= a < b < p2.len() && #[trigger] p2[a] is Some && #[trigger] p2[b] is Some implies p2[a]->0
                    != p2[b]->0 by {
                    if a == s && partners[b] is Some {
                        assert(taken[partners[b]->0 as int]);
                    }
                    if b == s && partners[a] is Some {
                        assert(taken[partners[a]->0 as int]);
                    }
                }
                lemma_remaining_consistent(from, to, keys, p2, t2, s + 1);
            },
            None => {
                lemma_remaining_consistent(from, to, keys, partners, taken, s + 1);
            },
        }
    }
}

proof fn lemma_pairs_follow_partners(partners: Seq<Option<usize>>, upto: nat)
    requires
        upto <= partners.len(),
        partners.len() <= usize::MAX,
    ensures
        forall|k: int|
            0 <= k < partner_pairs(partners, upto).len() ==> {
                let (s, t) = #[trigger] partner_pairs(partners, upto)[k];
                &&& s < upto
                &&& partners[s as int] == Some(t)
            },
        forall|k: int, l: int|
            0 <= k < l < partner_pairs(partners, upto).len() ==> #[trigger] partner_pairs(partners, upto)[k].0
                < #[trigger] partner_pairs(partners, upto)[l].0,
    decreases upto,
{
    if upto > 0 {
        lemma_pairs_follow_partners(partners, (upto - 1) as nat);
    }
}

/// The matching pairs clusters of equal text, lists sources in increasing
/// order, and uses no source and no target twice.
pub proof fn lemma_matches_pair_equal_clusters_once(
    from: Seq<Seq<char>>,
    to: Seq<Seq<char>>,
    keys: Seq<Seq<u32>>,
)
    requires
        from.len() <= usize::MAX,
        to.len() <= usize::MAX,
    ensures
        forall|k: int|
            0 <= k < matched_clusters(from, to, keys).len() ==> {
                let (s, t) = #[trigger] matched_clusters(from, to, keys)[k];
                &&& s < from.len()
                &&& t < to.len()
                &&& from[s as int] == to[t as int]
            },
        forall|k: int, l: int|
            0 <= k < l < matched_clusters(from, to, keys).len() ==> {
                &&& #[trigger] matched_clusters(from, to, keys)[k].0 < #[trigger] matched_clusters(
                    from,
                    to,
                    keys,
                )[l].0
                &&& matched_clusters(from, to, keys)[k].1 != matched_clusters(from, to, keys)[l].1
            },
{
    let empty_partners = Seq::new(from.len(), |i: int| None::<usize>);
    let empty_taken = Seq::new(to.len(), |i: int| false);
    assert(consistent_partners(from, to, empty_partners, empty_taken));
    lemma_walk_consistent(from, to, 0, 0, empty_partners, empty_taken);
    let (walked, walked_taken) = common_walk(from, to, 0, 0, empty_partners, empty_taken);
    lemma_remaining_consistent(from, to, keys, walked, walked_taken, 0);
    let partners = cluster_partners(from, to, keys);
    lemma_pairs_follow_partners(partners, from.len());
    let m = matched_clusters(from, to, keys);
    assert forall|k: int, l: int| 0 <= k < l < m.len() implies m[k].1 != m[l].1 by {
        let (a, ta) = m[k];
        let (b, tb) = m[l];
        assert(partners[a as int] == Some(ta));
        assert(partners[b as int] == Some(tb));
    }
}

/// Target `t` is the partner of some source.
pub open spec fn covered(partners: Seq<Option<usize>>, t: int) -> bool {
    exists|s: int| 0 <= s < partners.len() && #[trigger] partners[s] == Some(t as usize)
}

/// Every taken target is the partner of some source.
pub open spec fn taken_by_partners(partners: Seq<Option<usize>>, taken: Seq<bool>) -> bool {
    forall|t: int| 0 <= t < taken.len() && #[trigger] taken[t] ==> covered(partners, t)
}

proof fn lemma_walk_takes_for_partners(
    from: Seq<Seq<char>>,
    to: Seq<Seq<char>>,
    i: nat,
    j: nat,
    partners: Seq<Option<usize>>,
    taken: Seq<bool>,
)
    requires
        partners.len() == from.len(),
        taken.len() == to.len(),
        to.len() <= usize::MAX,
        taken_by_partners(partners, taken),
        forall|k: int| i <= k < partners.len() ==> #[trigger] partners[k] is None,
    ensures
        common_walk(from, to, i, j, partners, taken).0.len() == from.len(),
        common_walk(from, to, i, j, partners, taken).1.len() == to.len(),
        taken_by_partners(
            common_walk(from, to, i, j, partners, taken).0,
            common_walk(from, to, i, j, partners, taken).1,
        ),
    decreases from.len() + to.len() - i - j,
{
    if i >= from.len() || j >= to.len() {
    } else if from[i as int] == to[j as int] {
        let p2 = partners.update(i as int, Some(j as usize));
        let t2 = taken.update(j as int, true);
        assert forall|t: int| 0 <= t < t2.len() && #[trigger] t2[t] implies covered(p2, t) by {
            if t == j {
                assert(p2[i as int] == Some(t as usize));
            } else {
                let w = choose|w: int| 0 <= w < partners.len() && #[trigger] partners[w] == Some(t as usize);
                assert(w != i);
                assert(p2[w] == Some(t as usize));
            }
        }
        lemma_walk_takes_for_partners(from, to, i + 1, j + 1, p2, t2);
    } else if common_length(from, to, i + 1, j) >= common_length(from, to, i, j + 1) {
        lemma_walk_takes_for_partners(from, to, i + 1, j, partners, taken);
    } else {
        lemma_walk_takes_for_partners(from, to, i, j + 1, partners, taken);
    }
}

proof fn lemma_nearest_none(
    from: Seq<Seq<char>>,
    to: Seq<Seq<char>>,
    keys: Seq<Seq<u32>>,
    taken: Seq<bool>,
    s: nat,
    upto: nat,
)
    requires
        nearest_target(from, to, keys, taken, s, upto) is None,
    ensures
        forall|t: int| 0 <= t < upto ==> !#[trigger] eligible(from, to, taken, s as int, t),
    decreases upto,
{
    if upto > 0 {
        let t = (upto - 1) as nat;
        if nearest_target(from, to, keys, taken, s, t) is Some {
            assert(false);
        }
        lemma_nearest_none(from, to, keys, taken, s, t);
    }
}

proof fn lemma_remaining_keeps_partners(
    from: Seq<Seq<char>>,
    to: Seq<Seq<char>>,
    keys: Seq<Seq<u32>>,
    partners: Seq<Option<usize>>,
    taken: Seq<bool>,
    s: nat,
)
    requires
        partners.len() == from.len(),
    ensures
        match_remaining(from, to, keys, partners, taken, s).len() == partners.len(),
        forall|k: int|
            0 <= k < partners.len() && #[trigger] partners[k] is Some ==> match_remaining(
                from,
                to,
                keys,
                partners,
                taken,
                s,
            )[k] == partners[k],
    decreases from.len() - s,
{
    if s >= from.len() {
    } else if partners[s as int] is Some {
        lemma_remaining_keeps_partners(from, to, keys, partners, taken, s + 1);
    } else {
        match nearest_target(from, to, keys, taken, s, to.len()) {
            Some(t) => {
                let p2 = partners.update(s as int, Some(t));
                lemma_remaining_keeps_partners(from, to, keys, p2, taken.update(t as int, true), s + 1);
                assert forall|k: int| 0 <= k < partners.len() && #[trigger] partners[k] is Some implies p2[k]
                    == partners[k] && p2[k] is Some by {}
            },
            None => {
                lemma_remaining_keeps_partners(from, to, keys, partners, taken, s + 1);
            },
        }
    }
}

proof fn lemma_remaining_maximal(
    from: Seq<Seq<char>>,
    to: Seq<Seq<char>>,
    keys: Seq<Seq<u32>>,
    partners: Seq<Option<usize>>,
    taken: Seq<bool>,
    s: nat,
)
    requires
        consistent_partners(from, to, partners, taken),
        to.len() <= usize::MAX,
        taken_by_partners(partners, taken),
        forall|a: int, t: int|
            0 <= a < s && a < from.len() && #[trigger] partners[a] is None && 0 <= t < to.len()
                && from[a] == to[t] ==> #[trigger] taken[t],
    ensures
        forall|a: int, t: int|
            0 <= a < from.len() && #[trigger] match_remaining(from, to, keys, partners, taken, s)[a]
                is None && 0 <= t < to.len() && from[a] == to[t] ==> covered(
                match_remaining(from, to, keys, partners, taken, s),
                #[trigger] (t + 0),
            ),
    decreases from.len() - s,
{
    let result = match_remaining(from, to, keys, partners, taken, s);
    lemma_remaining_keeps_partners(from, to, keys, partners, taken, s);
    if s >= from.len() {
        assert forall|a: int, t: int|
            0 <= a < from.len() && #[trigger] result[a] is None && 0 <= t < to.len() && from[a]
                == to[t] implies covered(result, #[trigger] (t + 0)) by {
            assert(taken[t]);
            assert(covered(partners, t));
        }
    } else if partners[s as int] is Some {
        lemma_remaining_maximal(from, to, keys, partners, taken, s + 1);
    } else {
        lemma_nearest_is_eligible(from, to, keys, taken, s, to.len());
        match nearest_target(from, to, keys, taken, s, to.len()) {
            Some(t) => {
                let p2 = partners.update(s as int, Some(t));
                let t2 = taken.update(t as int, true);
                assert forall|a: int, b: int|
                    0 <= a < b < p2.len() && #[trigger] p2[a] is Some && #[trigger] p2[b] is Some implies p2[a]->0
                    != p2[b]->0 by {
                    if a == s && partners[b] is Some {
                        assert(taken[partners[b]->0 as int]);
                    }
                    if b == s && partners[a] is Some {
                        assert(taken[partners[a]->0 as int]);
                    }
                }
                assert forall|u: int| 0 <= u < t2.len() && #[trigger] t2[u] implies covered(p2, u) by {
                    if u == t as int {
                        assert(p2[s as int] == Some(u as usize));
                    } else {
                        let w = choose|w: int| 0 <= w < partners.len() && #[trigger] partners[w] == Some(u as usize);
                        assert(p2[w] == Some(u as usize));
                    }
                }
                assert forall|a: int, u: int|
                    0 <= a < s + 1 && a < from.len() && #[trigger] p2[a] is None && 0 <= u < to.len()
                        && from[a] == to[u] implies #[trigger] t2[u] by {
                    assert(partners[a] is None);
                    assert(taken[u]);
                }
                lemma_remaining_maximal(from, to, keys, p2, t2, s + 1);
            },
            None => {
                lemma_nearest_none(from, to, keys, taken, s, to.len());
                assert forall|a: int, u: int|
                    0 <= a < s + 1 && a < from.len() && #[trigger] partners[a] is None && 0 <= u < to.len()
                        && from[a] == to[u] implies #[trigger] taken[u] by {
                    if a == s {
                        assert(!eligible(from, to, taken, s as int, u));
                    }
                }
                lemma_remaining_maximal(from, to, keys, partners, taken, s + 1);
            },
        }
    }
}

proof fn lemma_partners_in_pairs(partners: Seq<Option<usize>>, upto: nat)
    requires
        upto <= partners.len(),
        partners.len() <= usize::MAX,
    ensures
        forall|s: int|
            0 <= s < upto && #[trigger] partners[s] is Some ==> exists|k: int|
                0 <= k < partner_pairs(partners, upto).len() && #[trigger] partner_pairs(
                    partners,
                    upto,
                )[k] == (s as usize, partners[s]->0),
    decreases upto,
{
    if upto > 0 {
        let last = (upto - 1) as nat;
        lemma_partners_in_pairs(partners, last);
        let before = partner_pairs(partners, last);
        let pairs = partner_pairs(partners, upto);
        assert forall|s: int| 0 <= s < upto && #[trigger] partners[s] is Some implies exists|k: int|
            0 <= k < pairs.len() && #[trigger] pairs[k] == (s as usize, partners[s]->0) by {
            if s == last {
                assert(pairs[pairs.len() - 1] == (s as usize, partners[s]->0));
            } else {
                let k = choose|k: int| 0 <= k < before.len() && #[trigger] before[k] == (s as usize, partners[s]->0);
                assert(pairs[k] == before[k]);
            }
        }
    }
}

/// Source `s` appears in the matching `m`.
pub open spec fn source_matched(m: Seq<(usize, usize)>, s: int) -> bool {
    exists|k: int| 0 <= k < m.len() && #[trigger] m[k].0 == s
}

/// Target `t` appears in the matching `m`.
pub open spec fn target_matched(m: Seq<(usize, usize)>, t: int) -> bool {
    exists|k: int| 0 <= k < m.len() && #[trigger] m[k].1 == t
}

/// The matching is maximal: whenever a source and a target cluster hold the
/// same text, the source or the target is matched, so no unmatched source
/// could still have been given an unmatched target.
pub proof fn lemma_matching_is_maximal(from: Seq<Seq<char>>, to: Seq<Seq<char>>, keys: Seq<Seq<u32>>)
    requires
        from.len() <= usize::MAX,
        to.len() <= usize::MAX,
    ensures
        forall|s: int, t: int|
            0 <= s < from.len() && 0 <= t < to.len() && #[trigger] from[s] == #[trigger] to[t]
                ==> source_matched(matched_clusters(from, to, keys), s) || target_matched(
                matched_clusters(from, to, keys),
                t,
            ),
{
    let empty_partners = Seq::new(from.len(), |i: int| None::<usize>);
    let empty_taken = Seq::new(to.len(), |i: int| false);
    assert(consistent_partners(from, to, empty_partners, empty_taken));
    lemma_walk_consistent(from, to, 0, 0, empty_partners, empty_taken);
    lemma_walk_takes_for_partners(from, to, 0, 0, empty_partners, empty_taken);
    let (walked, walked_taken) = common_walk(from, to, 0, 0, empty_partners, empty_taken);
    lemma_remaining_maximal(from, to, keys, walked, walked_taken, 0);
    lemma_remaining_keeps_partners(from, to, keys, walked, walked_taken, 0);
    let partners = cluster_partners(from, to, keys);
    lemma_partners_in_pairs(partners, from.len());
    let m = matched_clusters(from, to, keys);
    assert forall|s: int, t: int|
        0 <= s < from.len() && 0 <= t < to.len() && #[trigger] from[s] == #[trigger] to[t] implies source_matched(m, s)
            || target_matched(m, t) by {
        if partners[s] is Some {
            let k = choose|k: int| 0 <= k < m.len() && #[trigger] m[k] == (s as usize, partners[s]->0);
            assert(m[k].0 == s);
        } else {
            assert(covered(partners, t + 0));
            let w = choose|w: int| 0 <= w < partners.len() && #[trigger] partners[w] == Some(t as usize);
            let k = choose|k: int| 0 <= k < m.len() && #[trigger] m[k] == (w as usize, partners[w]->0);
            assert(m[k].1 == t);
        }
    }
}

/// `chain` is a common subsequence of `from[i..]` and `to[j..]`, given as
/// pairs of positions of equal clusters, increasing in both texts.
pub open spec fn common_chain(
    from: Seq<Seq<char>>,
    to: Seq<Seq<char>>,
    chain: Seq<(usize, usize)>,
    i: nat,
    j: nat,
) -> bool {
    &&& forall|k: int|
        0 <= k < chain.len() ==> i <= (#[trigger] chain[k]).0 < from.len() && j <= chain[k].1 < to.len()
            && from[chain[k].0 as int] == to[chain[k].1 as int]
    &&& forall|k: int, l: int|
        0 <= k < l < chain.len() ==> (#[trigger] chain[k]).0 < (#[trigger] chain[l]).0 && chain[k].1
            < chain[l].1
}

/// `common_length` is the length of a longest common subsequence: no common
/// subsequence of `from[i..]` and `to[j..]` is longer.
pub proof fn lemma_common_length_is_longest(
    from: Seq<Seq<char>>,
    to: Seq<Seq<char>>,
    chain: Seq<(usize, usize)>,
    i: nat,
    j: nat,
)
    requires
        common_chain(from, to, chain, i, j),
    ensures
        chain.len() <= common_length(from, to, i, j),
    decreases from.len() + to.len() - i - j,
{
    if chain.len() == 0 {
        return;
    }
    let first = chain[0];
    if i >= from.len() || j >= to.len() {
        assert(false);
    }
    let tail = chain.drop_first();
    if from[i as int] == to[j as int] {
        assert(common_chain(from, to, tail, i + 1, j + 1)) by {
            assert forall|k: int| 0 <= k < tail.len() implies i + 1 <= (#[trigger] tail[k]).0 && j + 1 <= tail[k].1 by {
                assert(tail[k] == chain[k + 1]);
                assert(chain[0].0 < chain[k + 1].0);
            }
            assert forall|k: int, l: int| 0 <= k < l < tail.len() implies (#[trigger] tail[k]).0 < (#[trigger] tail[l]).0
                && tail[k].1 < tail[l].1 by {
                assert(tail[k] == chain[k + 1]);
                assert(tail[l] == chain[l + 1]);
            }
        }
        lemma_common_length_is_longest(from, to, tail, i + 1, j + 1);
    } else if first.0 > i {
        assert(common_chain(from, to, chain, i + 1, j)) by {
            assert forall|k: int| 0 <= k < chain.len() implies i + 1 <= (#[trigger] chain[k]).0 by {
                if k > 0 {
                    assert(chain[0].0 < chain[k].0);
                }
            }
        }
        lemma_common_length_is_longest(from, to, chain, i + 1, j);
    } else {
        assert(first.1 > j);
        assert(common_chain(from, to, chain, i, j + 1)) by {
            assert forall|k: int| 0 <= k < chain.len() implies j + 1 <= (#[trigger] chain[k]).1 by {
                if k > 0 {
                    assert(chain[0].1 < chain[k].1);
                }
            }
        }
        lemma_common_length_is_longest(from, to, chain, i, j + 1);
    }
}

/// The pairs the in-order walk along a longest common subsequence records
/// from source `i` and target `j` on.
spec fn walk_chain(from: Seq<Seq<char>>, to: Seq<Seq<char>>, i: nat, j: nat) -> Seq<(usize, usize)>
    decreases from.len() + to.len() - i - j,
{
    if i >= from.len() || j >= to.len() {
        Seq::empty()
    } else if from[i as int] == to[j as int] {
        seq![(i as usize, j as usize)] + walk_chain(from, to, i + 1, j + 1)
    } else if common_length(from, to, i + 1, j) >= common_length(from, to, i, j + 1) {
        walk_chain(from, to, i + 1, j)
    } else {
        walk_chain(from, to, i, j + 1)
    }
}

proof fn lemma_walk_chain_is_longest(from: Seq<Seq<char>>, to: Seq<Seq<char>>, i: nat, j: nat)
    requires
        from.len() <= usize::MAX,
        to.len() <= usize::MAX,
    ensures
        common_chain(from, to, walk_chain(from, to, i, j), i, j),
        walk_chain(from, to, i, j).len() == common_length(from, to, i, j),
    decreases from.len() + to.len() - i - j,
{
    if i >= from.len() || j >= to.len() {
    } else if from[i as int] == to[j as int] {
        lemma_walk_chain_is_longest(from, to, i + 1, j + 1);
        let tail = walk_chain(from, to, i + 1, j + 1);
        let chain = walk_chain(from, to, i, j);
        assert(chain == seq![(i as usize, j as usize)] + tail);
        assert forall|k: int| 0 <= k < chain.len() implies i <= (#[trigger] chain[k]).0 < from.len() && j
            <= chain[k].1 < to.len() && from[chain[k].0 as int] == to[chain[k].1 as int] by {
            if k > 0 {
                assert(chain[k] == tail[k - 1]);
            }
        }
        assert forall|k: int, l: int| 0 <= k < l < chain.len() implies (#[trigger] chain[k]).0 < (#[trigger] chain[l]).0
            && chain[k].1 < chain[l].1 by {
            assert(chain[l] == tail[l - 1]);
            if k > 0 {
                assert(chain[k] == tail[k - 1]);
            }
        }
    } else if common_length(from, to, i + 1, j) >= common_length(from, to, i, j + 1) {
        lemma_walk_chain_is_longest(from, to, i + 1, j);
    } else {
        lemma_walk_chain_is_longest(from, to, i, j + 1);
    }
}

proof fn lemma_walk_records_chain(
    from: Seq<Seq<char>>,
    to: Seq<Seq<char>>,
    i: nat,
    j: nat,
    partners: Seq<Option<usize>>,
    taken: Seq<bool>,
)
    requires
        partners.len() == from.len(),
        taken.len() == to.len(),
        from.len() <= usize::MAX,
        to.len() <= usize::MAX,
    ensures
        common_walk(from, to, i, j, partners, taken).0.len() == from.len(),
        forall|x: int| 0 <= x < i && x < from.len() ==> common_walk(from, to, i, j, partners, taken).0[x] == partners[x],
        forall|k: int|
            0 <= k < walk_chain(from, to, i, j).len() ==> common_walk(from, to, i, j, partners, taken).0[(
            #[trigger] walk_chain(from, to, i, j)[k]).0 as int] == Some(walk_chain(from, to, i, j)[k].1),
    decreases from.len() + to.len() - i - j,
{
    if i >= from.len() || j >= to.len() {
    } else if from[i as int] == to[j as int] {
        let p2 = partners.update(i as int, Some(j as usize));
        let t2 = taken.update(j as int, true);
        lemma_walk_records_chain(from, to, i + 1, j + 1, p2, t2);
        lemma_walk_chain_is_longest(from, to, i + 1, j + 1);
        let tail = walk_chain(from, to, i + 1, j + 1);
        let chain = walk_chain(from, to, i, j);
        assert(chain == seq![(i as usize, j as usize)] + tail);
        let result = common_walk(from, to, i, j, partners, taken).0;
        assert(result == common_walk(from, to, i + 1, j + 1, p2, t2).0);
        assert(result[i as int] == p2[i as int]);
        assert forall|x: int| 0 <= x < i && x < from.len() implies result[x] == partners[x] by {
            assert(result[x] == p2[x]);
        }
        assert forall|k: int| 0 <= k < chain.len() implies result[(#[trigger] chain[k]).0 as int] == Some(chain[k].1) by {
            if k > 0 {
                assert(chain[k] == tail[k - 1]);
            } else {
                assert(chain[0] == (i as usize, j as usize));
            }
        }
    } else if common_length(from, to, i + 1, j) >= common_length(from, to, i, j + 1) {
        lemma_walk_records_chain(from, to, i + 1, j, partners, taken);
    } else {
        lemma_walk_records_chain(from, to, i, j + 1, partners, taken);
    }
}

/// The matching keeps a longest common subsequence of the two cluster lists
/// in place: its pairs include a common subsequence of `from` and `to`, in
/// order in both, that is as long as any common subsequence can be.
pub proof fn lemma_matching_keeps_a_longest_common_subsequence(
    from: Seq<Seq<char>>,
    to: Seq<Seq<char>>,
    keys: Seq<Seq<u32>>,
)
    requires
        from.len() <= usize::MAX,
        to.len() <= usize::MAX,
    ensures
        exists|chain: Seq<(usize, usize)>|
            #[trigger] common_chain(from, to, chain, 0, 0) && (forall|other: Seq<(usize, usize)>|
                common_chain(from, to, other, 0, 0) ==> other.len() <= chain.len()) && (forall|k: int|
                0 <= k < chain.len() ==> matched_clusters(from, to, keys).contains(#[trigger] chain[k])),
{
    let empty_partners = Seq::new(from.len(), |i: int| None::<usize>);
    let empty_taken = Seq::new(to.len(), |i: int| false);
    lemma_walk_chain_is_longest(from, to, 0, 0);
    lemma_walk_records_chain(from, to, 0, 0, empty_partners, empty_taken);
    let chain = walk_chain(from, to, 0, 0);
    let (walked, walked_taken) = common_walk(from, to, 0, 0, empty_partners, empty_taken);
    lemma_remaining_keeps_partners(from, to, keys, walked, walked_taken, 0);
    let partners = cluster_partners(from, to, keys);
    lemma_partners_in_pairs(partners, from.len());
    let m = matched_clusters(from, to, keys);
    assert forall|other: Seq<(usize, usize)>| common_chain(from, to, other, 0, 0) implies other.len() <= chain.len() by {
        lemma_common_length_is_longest(from, to, other, 0, 0);
    }
    assert forall|k: int| 0 <= k < chain.len() implies m.contains(#[trigger] chain[k]) by {
        let (s, t) = chain[k];
        assert(walked[s as int] == Some(t));
        assert(partners[s as int] == Some(t));
        let w = choose|w: int| 0 <= w < m.len() && #[trigger] m[w] == (s, partners[s as int]->0);
        assert(m[w] == chain[k]);
    }
}

/// The order keys of every source, row by row.
pub open spec fn key_rows(keys: Seq<Vec<u32>>) -> Seq<Seq<u32>> {
    keys.map_values(|row: Vec<u32>| row@)
}

/// The nearest eligible target of source `s`.
fn nearest_free_target(
    from: &Vec<String>,
    to: &Vec<String>,
    keys: &Vec<Vec<u32>>,
    taken: &Vec<bool>,
    s: usize,
) -> (best: Option<usize>)
    requires
        s < from@.len(),
        keys@.len() == from@.len(),
        forall|r: int| 0 <= r < keys@.len() ==> #[trigger] keys@[r]@.len() == to@.len(),
        taken@.len() == to@.len(),
    ensures
        best == nearest_target(
            texts(from@),
            texts(to@),
            key_rows(keys@),
            taken@,
            s as nat,
            to@.len(),
        ),
        best matches Some(t) ==> t < to@.len(),
{
    let ghost f = texts(from@);
    let ghost g = texts(to@);
    let ghost k = key_rows(keys@);
    let mut best: Option<usize> = None;
    let mut t: usize = 0;
    while t < to.len()
        invariant
            f == texts(from@),
            g == texts(to@),
            k == key_rows(keys@),
            s < from@.len(),
            keys@.len() == from@.len(),
            forall|r: int| 0 <= r < keys@.len() ==> #[trigger] keys@[r]@.len() == to@.len(),
            taken@.len() == to@.len(),
            t <= to@.len(),
            best == nearest_target(f, g, k, taken@, s as nat, t as nat),
            best matches Some(b) ==> b < t,
        decreases to@.len() - t,
    {
        proof {
            assert(f[s as int] == from@[s as int]@);
            assert(g[t as int] == to@[t as int]@);
            assert(k[s as int] == keys@[s as int]@);
        }
        let row = &keys[s];
        let is_eligible = !taken[t] && from[s] == to[t];
        if is_eligible {
            let closer = match best {
                None => true,
                Some(b) => row[t] < row[b],
            };
            if closer {
                best = Some(t);
            }
        }
        t = t + 1;
    }
    best
}

/// Matches the character clusters of a morph's source text `from` with those
/// of its target text `to`; `keys[s][t]` orders target `t` by its distance
/// from source `s`. Returns the matched pairs in source order.
pub fn match_clusters(from: &Vec<String>, to: &Vec<String>, keys: &Vec<Vec<u32>>) -> (matches: Vec<
    (usize, usize),
>)
    requires
        from@.len() < usize::MAX,
        to@.len() < usize::MAX,
        keys@.len() == from@.len(),
        forall|r: int| 0 <= r < keys@.len() ==> #[trigger] keys@[r]@.len() == to@.len(),
    ensures
        matches@ == matched_clusters(texts(from@), texts(to@), key_rows(keys@)),
{
    let ghost f = texts(from@);
    let ghost g = texts(to@);
    let ghost k = key_rows(keys@);
    let table = common_length_table(from, to);
    let mut partners: Vec<Option<usize>> = Vec::new();
    while partners.len() < from.len()
        invariant
            partners@.len() <= from@.len(),
            forall|i: int| 0 <= i < partners@.len() ==> partners@[i] is None,
        decreases from@.len() - partners@.len(),
    {
        partners.push(None);
    }
    let mut taken: Vec<bool> = Vec::new();
    while taken.len() < to.len()
        invariant
            taken@.len() <= to@.len(),
            forall|j: int| 0 <= j < taken@.len() ==> !taken@[j],
        decreases to@.len() - taken@.len(),
    {
        taken.push(false);
    }
    let ghost no_partners = partners@;
    let ghost nothing_taken = taken@;
    assert(no_partners =~= Seq::new(f.len(), |i: int| None));
    assert(nothing_taken =~= Seq::new(g.len(), |i: int| false));
    let mut i: usize = 0;
    let mut j: usize = 0;
    while i < from.len() && j < to.len()
        invariant
            f == texts(from@),
            g == texts(to@),
            i <= from@.len(),
            j <= to@.len(),
            partners@.len() == from@.len(),
            taken@.len() == to@.len(),
            table@.len() == from@.len() + 1,
            forall|r: int| 0 <= r <= from@.len() ==> #[trigger] table@[r]@.len() == to@.len() + 1,
            forall|r: int, c: int|
                0 <= r <= from@.len() && 0 <= c <= to@.len() ==> #[trigger] table@[r]@[c]
                    == common_length(f, g, r as nat, c as nat),
            common_walk(f, g, i as nat, j as nat, partners@, taken@) == common_walk(
                f,
                g,
                0,
                0,
                no_partners,
                nothing_taken,
            ),
        decreases from@.len() + to@.len() - i - j,
    {
        proof {
            assert(f[i as int] == from@[i as int]@);
            assert(g[j as int] == to@[j as int]@);
        }
        if from[i] == to[j] {
            partners.set(i, Some(j));
            taken.set(j, true);
            i = i + 1;
            j = j + 1;
        } else if table[i + 1][j] >= table[i][j + 1] {
            i = i + 1;
        } else {
            j = j + 1;
        }
    }
    let ghost walked_partners = partners@;
    let ghost walked_taken = taken@;
    let mut s: usize = 0;
    while s < from.len()
        invariant
            f == texts(from@),
            g == texts(to@),
            k == key_rows(keys@),
            keys@.len() == from@.len(),
            forall|r: int| 0 <= r < keys@.len() ==> #[trigger] keys@[r]@.len() == to@.len(),
            s <= from@.len(),
            partners@.len() == from@.len(),
            taken@.len() == to@.len(),
            match_remaining(f, g, k, partners@, taken@, s as nat) == match_remaining(
                f,
                g,
                k,
                walked_partners,
                walked_taken,
                0,
            ),
        decreases from@.len() - s,
    {
        if partners[s].is_none() {
            let best = nearest_free_target(from, to, keys, &taken, s);
            match best {
                Some(t) => {
                    partners.set(s, Some(t));
                    taken.set(t, true);
                },
                None => {},
            }
        }
        s = s + 1;
    }
    let mut matches: Vec<(usize, usize)> = Vec::new();
    let mut source: usize = 0;
    while source < partners.len()
        invariant
            source <= partners@.len(),
            matches@ == partner_pairs(partners@, source as nat),
        decreases partners@.len() - source,
    {
        match partners[source] {
            Some(t) => {
                matches.push((source, t));
            },
            None => {},
        }
        source = source + 1;
    }
    matches
}

/// The lines of `text` between the `'\n'` separators from position `start`,
/// scanning from position `i`.
pub open spec fn split_lines_from(text: Seq<char>, start: nat, i: nat) -> Seq<Seq<char>>
    decreases text.len() - i,
{
    if i >= text.len() {
        seq![text.subrange(start as int, text.len() as int)]
    } else if text[i as int] == '\n' {
        seq![text.subrange(start as int, i as int)] + split_lines_from(text, i + 1, i + 1)
    } else {
        split_lines_from(text, start, i + 1)
    }
}

/// A line without its trailing `'\r'`, if it has one.
pub open spec fn without_carriage_return(line: Seq<char>) -> Seq<char> {
    if line.len() > 0 && line.last() == '\r' {
        line.drop_last()
    } else {
        line
    }
}

/// The lines of a text: split at every `'\n'`, each without a trailing `'\r'`.
pub open spec fn text_lines(text: Seq<char>) -> Seq<Seq<char>> {
    split_lines_from(text, 0, 0).map_values(|line: Seq<char>| without_carriage_return(line))
}

/// Splits `text` into its lines, each without a trailing `'\r'`.
pub fn split_text_lines(text: &str) -> (lines: Vec<String>)
    ensures
        texts(lines@) == text_lines(text@),
{
    let ghost t = text@;
    let len = text.unicode_len();
    let mut lines: Vec<String> = Vec::new();
    let mut start: usize = 0;
    let mut i: usize = 0;
    while i < len
        invariant
            t == text@,
            len == t.len(),
            start <= i <= len,
            texts(lines@) + split_lines_from(t, start as nat, i as nat).map_values(
                |line: Seq<char>| without_carriage_return(line),
            ) == text_lines(t),
        decreases len - i,
    {
        if text.get_char(i) == '\n' {
            let line = line_without_carriage_return(text, start, i);
            let ghost before = lines@;
            lines.push(line);
            proof {
                let rest = split_lines_from(t, (i + 1) as nat, (i + 1) as nat);
                let strip = |line: Seq<char>| without_carriage_return(line);
                assert(split_lines_from(t, start as nat, i as nat) == seq![t.subrange(start as int, i as int)] + rest);
                assert((seq![t.subrange(start as int, i as int)] + rest).map_values(strip) =~= seq![
                    without_carriage_return(t.subrange(start as int, i as int)),
                ] + rest.map_values(strip));
                assert(texts(lines@) =~= texts(before).push(without_carriage_return(t.subrange(start as int, i as int))));
                assert(texts(lines@) + rest.map_values(strip) =~= texts(before) + (seq![
                    without_carriage_return(t.subrange(start as int, i as int)),
                ] + rest.map_values(strip)));
            }
            start = i + 1;
        }
        i = i + 1;
    }
    let line = line_without_carriage_return(text, start, len);
    let ghost before = lines@;
    lines.push(line);
    proof {
        let strip = |line: Seq<char>| without_carriage_return(line);
        assert(split_lines_from(t, start as nat, len as nat) == seq![t.subrange(start as int, len as int)]);
        assert(seq![t.subrange(start as int, len as int)].map_values(strip) =~= seq![
            without_carriage_return(t.subrange(start as int, len as int)),
        ]);
        assert(texts(lines@) =~= texts(before).push(without_carriage_return(t.subrange(start as int, len as int))));
    }
    lines
}

/// The characters `start..end` of `text` without a trailing `'\r'`.
fn line_without_carriage_return(text: &str, start: usize, end: usize) -> (line: String)
    requires
        start <= end <= text@.len(),
    ensures
        line@ == without_carriage_return(text@.subrange(start as int, end as int)),
{
    let last = if end > start && text.get_char(end - 1) == '\r' {
        end - 1
    } else {
        end
    };
    let line = text.substring_char(start, last).to_owned();
    assert(line@ =~= without_carriage_return(text@.subrange(start as int, end as int)));
    line
}

/// Names the extended grapheme clusters, in order, that
/// `unicode_segmentation` splits `text` into.
pub uninterp spec fn extended_graphemes(text: Seq<char>) -> Seq<Seq<char>>;

/// Calls `UnicodeSegmentation::graphemes(text, true)` of `unicode_segmentation`
/// and copies each cluster it yields into a `String`; the contract claims
/// only that the clusters are the ones `extended_graphemes` names for `text`.
#[verifier::external_body]
fn graphemes(text: &str) -> (clusters: Vec<String>)
    ensures
        texts(clusters@) == extended_graphemes(text@),
{
    text.graphemes(true).map(|cluster| cluster.to_owned()).collect()
}

/// The clusters of lines `0..upto`, line after line.
pub open spec fn clusters_of_lines(lines: Seq<Seq<char>>, upto: nat) -> Seq<Seq<char>>
    decreases upto,
{
    if upto == 0 {
        seq![]
    } else {
        clusters_of_lines(lines, (upto - 1) as nat) + extended_graphemes(lines[upto - 1])
    }
}

/// The character clusters a text is laid out in: the grapheme clusters of
/// each of its lines, line after line.
pub open spec fn layout_clusters(text: Seq<char>) -> Seq<Seq<char>> {
    clusters_of_lines(text_lines(text), text_lines(text).len())
}

/// Splits `text` into the character clusters it is laid out and morphed in.
pub fn cluster_texts(text: &str) -> (clusters: Vec<String>)
    ensures
        texts(clusters@) == layout_clusters(text@),
{
    let lines = split_text_lines(text);
    let ghost line_texts = texts(lines@);
    let mut clusters: Vec<String> = Vec::new();
    let mut index: usize = 0;
    while index < lines.len()
        invariant
            line_texts == texts(lines@),
            line_texts == text_lines(text@),
            index <= lines@.len(),
            texts(clusters@) == clusters_of_lines(line_texts, index as nat),
        decreases lines@.len() - index,
    {
        let mut line_clusters = graphemes(lines[index].as_str());
        let ghost before = clusters@;
        let ghost added = line_clusters@;
        clusters.append(&mut line_clusters);
        proof {
            assert(clusters@ == before + added);
            assert(texts(clusters@) =~= texts(before) + texts(added));
            assert(line_texts[index as int] == lines@[index as int]@);
        }
        index = index + 1;
    }
    clusters
}

/// Which clusters of a morph are matched, and the last matched ones.
pub struct MorphPartition {
    pub matched_from: Vec<bool>,
    pub matched_to: Vec<bool>,
    pub last_from_match: Option<usize>,
    pub last_to_match: Option<usize>,
}

/// Whether some pair of `matches` has `index` on the given side.
pub open spec fn matched_on(matches: Seq<(usize, usize)>, index: int, source: bool) -> bool {
    exists|k: int|
        0 <= k < matches.len() && (if source {
            matches[k].0
        } else {
            matches[k].1
        }) == index
}

/// The largest index on the given side of `matches`, if any.
pub open spec fn last_matched(matches: Seq<(usize, usize)>, source: bool) -> Option<usize>
    decreases matches.len(),
{
    if matches.len() == 0 {
        None
    } else {
        let here = if source {
            matches.last().0
        } else {
            matches.last().1
        };
        match last_matched(matches.drop_last(), source) {
            Some(before) => Some(if here >= before { here } else { before }),
            None => Some(here),
        }
    }
}

/// Marks the matched clusters on both sides and finds the last matched one
/// on each side, which anchors the glyphs that appear or vanish.
pub fn partition_clusters(from_len: usize, to_len: usize, matches: &Vec<(usize, usize)>) -> (partition: MorphPartition)
    requires
        forall|k: int| 0 <= k < matches@.len() ==> #[trigger] matches@[k].0 < from_len && matches@[k].1 < to_len,
    ensures
        partition.matched_from@.len() == from_len,
        partition.matched_to@.len() == to_len,
        forall|i: int| 0 <= i < from_len ==> #[trigger] partition.matched_from@[i] == matched_on(matches@, i, true),
        forall|j: int| 0 <= j < to_len ==> #[trigger] partition.matched_to@[j] == matched_on(matches@, j, false),
        partition.last_from_match == last_matched(matches@, true),
        partition.last_to_match == last_matched(matches@, false),
{
    let mut matched_from: Vec<bool> = Vec::new();
    while matched_from.len() < from_len
        invariant
            matched_from@.len() <= from_len,
            forall|i: int| 0 <= i < matched_from@.len() ==> !matched_from@[i],
        decreases from_len - matched_from@.len(),
    {
        matched_from.push(false);
    }
    let mut matched_to: Vec<bool> = Vec::new();
    while matched_to.len() < to_len
        invariant
            matched_to@.len() <= to_len,
            forall|j: int| 0 <= j < matched_to@.len() ==> !matched_to@[j],
        decreases to_len - matched_to@.len(),
    {
        matched_to.push(false);
    }
    let mut last_from: Option<usize> = None;
    let mut last_to: Option<usize> = None;
    let mut k: usize = 0;
    while k < matches.len()
        invariant
            forall|m: int| 0 <= m < matches@.len() ==> #[trigger] matches@[m].0 < from_len && matches@[m].1 < to_len,
            k <= matches@.len(),
            matched_from@.len() == from_len,
            matched_to@.len() == to_len,
            forall|i: int| 0 <= i < from_len ==> #[trigger] matched_from@[i] == matched_on(matches@.take(k as int), i, true),
            forall|j: int| 0 <= j < to_len ==> #[trigger] matched_to@[j] == matched_on(matches@.take(k as int), j, false),
            last_from == last_matched(matches@.take(k as int), true),
            last_to == last_matched(matches@.take(k as int), false),
        decreases matches@.len() - k,
    {
        let (source, target) = matches[k];
        matched_from.set(source, true);
        matched_to.set(target, true);
        last_from = match last_from {
            Some(before) => Some(if source >= before { source } else { before }),
            None => Some(source),
        };
        last_to = match last_to {
            Some(before) => Some(if target >= before { target } else { before }),
            None => Some(target),
        };
        proof {
            let prefix = matches@.take(k as int);
            let next = matches@.take(k + 1);
            assert(next.drop_last() =~= prefix);
            assert(next.last() == matches@[k as int]);
            assert forall|i: int| 0 <= i < from_len implies #[trigger] matched_from@[i] == matched_on(next, i, true) by {
                if matched_on(prefix, i, true) {
                    let w = choose|w: int| 0 <= w < prefix.len() && prefix[w].0 == i;
                    assert(next[w] == prefix[w]);
                }
                if matched_on(next, i, true) && i != source {
                    let w = choose|w: int| 0 <= w < next.len() && next[w].0 == i;
                    assert(prefix[w] == next[w]);
                }
                if i == source {
                    assert(next[k as int].0 == i);
                }
            }
            assert forall|j: int| 0 <= j < to_len implies #[trigger] matched_to@[j] == matched_on(next, j, false) by {
                if matched_on(prefix, j, false) {
                    let w = choose|w: int| 0 <= w < prefix.len() && prefix[w].1 == j;
                    assert(next[w] == prefix[w]);
                }
                if matched_on(next, j, false) && j != target {
                    let w = choose|w: int| 0 <= w < next.len() && next[w].1 == j;
                    assert(prefix[w] == next[w]);
                }
                if j == target {
                    assert(next[k as int].1 == j);
                }
            }
        }
        k = k + 1;
    }
    assert(matches@.take(matches@.len() as int) =~= matches@);
    MorphPartition { matched_from, matched_to, last_from_match: last_from, last_to_match: last_to }
}

} // verus!
