//! The order in which a pairwise scan visits its matches.
//!
//! A scan walks a table of rows and, for each row, a table of columns, and reports the
//! pairs that are related. `pairs` names the reported index pairs in the order of the
//! walk.

use vstd::prelude::*;

verus! {

/// The related pairs of one row among the first `columns` columns, by rising column.
pub open spec fn row_pairs(row: int, columns: nat, related: spec_fn(int, int) -> bool) -> Seq<
    (int, int),
> {
    Seq::new(columns, |j: int| (row, j)).filter(|p: (int, int)| related(p.0, p.1))
}

/// The related pairs among the first `rows` rows and the first `columns` columns, by
/// rising row and, within a row, by rising column.
pub open spec fn pairs(rows: nat, columns: nat, related: spec_fn(int, int) -> bool) -> Seq<
    (int, int),
> {
    Seq::new(rows, |i: int| row_pairs(i, columns, related)).flatten()
}

/// `a` comes before `b` in the walk.
pub open spec fn before(a: (int, int), b: (int, int)) -> bool {
    a.0 < b.0 || (a.0 == b.0 && a.1 < b.1)
}

/// A row of no columns reports nothing, and one more column adds its pair if related.
pub proof fn lemma_row_step(row: int, columns: nat, related: spec_fn(int, int) -> bool)
    ensures
        row_pairs(row, 0, related) == Seq::<(int, int)>::empty(),
        row_pairs(row, columns + 1, related) == if related(row, columns as int) {
            row_pairs(row, columns, related).push((row, columns as int))
        } else {
            row_pairs(row, columns, related)
        },
{
    reveal(Seq::filter);
    let keep = |p: (int, int)| related(p.0, p.1);
    let shorter = Seq::new(columns, |j: int| (row, j));
    let longer = Seq::new(columns + 1, |j: int| (row, j));
    assert(longer =~= shorter.push((row, columns as int)));
    shorter.lemma_filter_push((row, columns as int), keep);
    assert(Seq::new(0, |j: int| (row, j)).len() == 0);
}

/// A scan of no rows reports nothing, and one more row adds its pairs at the end.
pub proof fn lemma_rows_step(rows: nat, columns: nat, related: spec_fn(int, int) -> bool)
    ensures
        pairs(0, columns, related) == Seq::<(int, int)>::empty(),
        pairs(rows + 1, columns, related) == pairs(rows, columns, related) + row_pairs(
            rows as int,
            columns,
            related,
        ),
{
    let shorter = Seq::new(rows, |i: int| row_pairs(i, columns, related));
    let longer = Seq::new(rows + 1, |i: int| row_pairs(i, columns, related));
    assert(longer =~= shorter.push(row_pairs(rows as int, columns, related)));
    shorter.lemma_flatten_push(row_pairs(rows as int, columns, related));
    assert(Seq::new(0, |i: int| row_pairs(i, columns, related)).len() == 0);
    assert(pairs(0, columns, related) =~= Seq::<(int, int)>::empty());
}

/// Within a row, the reported pairs are exactly the related ones, each once and by
/// rising column.
pub proof fn lemma_row_scan(row: int, columns: nat, related: spec_fn(int, int) -> bool)
    ensures
        forall|k: int|
            0 <= k < row_pairs(row, columns, related).len() ==> {
                let p = #[trigger] row_pairs(row, columns, related)[k];
                p.0 == row && 0 <= p.1 < columns && related(p.0, p.1)
            },
        forall|j: int|
            0 <= j < columns && #[trigger] related(row, j) ==> row_pairs(
                row,
                columns,
                related,
            ).contains((row, j)),
        forall|a: int, b: int|
            0 <= a < b < row_pairs(row, columns, related).len() ==> before(
                #[trigger] row_pairs(row, columns, related)[a],
                #[trigger] row_pairs(row, columns, related)[b],
            ),
    decreases columns,
{
    lemma_row_step(row, 0, related);
    if columns > 0 {
        let fewer = (columns - 1) as nat;
        lemma_row_scan(row, fewer, related);
        lemma_row_step(row, fewer, related);
        let short = row_pairs(row, fewer, related);
        let long = row_pairs(row, columns, related);
        assert forall|j: int| 0 <= j < columns && #[trigger] related(row, j) implies long.contains(
            (row, j),
        ) by {
            if j < fewer {
                let k = choose|k: int| 0 <= k < short.len() && short[k] == (row, j);
                assert(long[k] == (row, j));
            } else {
                assert(long[long.len() - 1] == (row, j));
            }
        }
        assert forall|a: int, b: int| 0 <= a < b < long.len() implies before(
            #[trigger] long[a],
            #[trigger] long[b],
        ) by {
            if b < short.len() {
                assert(long[a] == short[a] && long[b] == short[b]);
            } else {
                assert(long[a] == short[a]);
            }
        }
    }
}

/// What a scan reports: every reported pair is related; every related pair is reported;
/// and the report follows the walk, so that no pair is reported twice.
pub proof fn lemma_scan(rows: nat, columns: nat, related: spec_fn(int, int) -> bool)
    ensures
        forall|k: int|
            0 <= k < pairs(rows, columns, related).len() ==> {
                let p = #[trigger] pairs(rows, columns, related)[k];
                0 <= p.0 < rows && 0 <= p.1 < columns && related(p.0, p.1)
            },
        forall|i: int, j: int|
            0 <= i < rows && 0 <= j < columns && #[trigger] related(i, j) ==> pairs(
                rows,
                columns,
                related,
            ).contains((i, j)),
        forall|a: int, b: int|
            0 <= a < b < pairs(rows, columns, related).len() ==> before(
                #[trigger] pairs(rows, columns, related)[a],
                #[trigger] pairs(rows, columns, related)[b],
            ),
        pairs(rows, columns, related).no_duplicates(),
    decreases rows,
{
    lemma_rows_step(0, columns, related);
    if rows > 0 {
        let fewer = (rows - 1) as nat;
        lemma_scan(fewer, columns, related);
        lemma_rows_step(fewer, columns, related);
        lemma_row_scan(fewer as int, columns, related);
        let short = pairs(fewer, columns, related);
        let row = row_pairs(fewer as int, columns, related);
        let long = pairs(rows, columns, related);
        assert(long == short + row);
        assert forall|k: int| 0 <= k < long.len() implies {
            let p = #[trigger] long[k];
            0 <= p.0 < rows && 0 <= p.1 < columns && related(p.0, p.1)
        } by {
            if k < short.len() {
                assert(long[k] == short[k]);
            } else {
                assert(long[k] == row[k - short.len()]);
            }
        }
        assert forall|i: int, j: int|
            0 <= i < rows && 0 <= j < columns && #[trigger] related(i, j) implies long.contains(
            (i, j),
        ) by {
            if i < fewer {
                let k = choose|k: int| 0 <= k < short.len() && short[k] == (i, j);
                assert(long[k] == (i, j));
            } else {
                let k = choose|k: int| 0 <= k < row.len() && row[k] == (i, j);
                assert(long[short.len() + k] == (i, j));
            }
        }
        assert forall|a: int, b: int| 0 <= a < b < long.len() implies before(
            #[trigger] long[a],
            #[trigger] long[b],
        ) by {
            if b < short.len() {
                assert(long[a] == short[a] && long[b] == short[b]);
            } else if a < short.len() {
                assert(long[a] == short[a] && long[b] == row[b - short.len()]);
            } else {
                assert(long[a] == row[a - short.len()] && long[b] == row[b - short.len()]);
            }
        }
    }
    let all = pairs(rows, columns, related);
    assert forall|a: int, b: int| 0 <= a < all.len() && 0 <= b < all.len() && a != b implies all[a]
        != all[b] by {
        if a < b {
            assert(before(all[a], all[b]));
        } else {
            assert(before(all[b], all[a]));
        }
    }
}

} // verus!
